use minecrevy_io::ProtocolState;
use minecrevy_io::ProtocolVersion;

#[test]
fn it_works() {
    let result = 2 + 2;
    assert_eq!(result, 4);
}

#[test]
fn default_state_is_handshake() {
    assert_eq!(ProtocolState::default(), ProtocolState::Handshake);
}

#[test]
fn catalog_lists_known_versions() {
    let all = ProtocolVersion::all();
    assert_eq!(all.len(), 1);
    assert_eq!(all[0].protocol(), 754);
    assert_eq!(all[0].names(), &vec!["1.16.4".to_string(), "1.16.5".to_string()]);
}

#[test]
fn lookup_by_protocol_number() {
    let v = ProtocolVersion::find_by_protocol(754).unwrap();
    assert_eq!(v.protocol(), 754);
    assert!(ProtocolVersion::find_by_protocol(755).is_none());
}

#[test]
fn lookup_by_game_version_name() {
    let v = ProtocolVersion::find_by_name("1.16.5").unwrap();
    assert_eq!(v.protocol(), 754);
    assert_eq!(v.names(), &vec!["1.16.4".to_string(), "1.16.5".to_string()]);
    assert!(ProtocolVersion::find_by_name("1.8.9").is_none());
}
