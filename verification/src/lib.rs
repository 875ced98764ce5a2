//! A binary wire-protocol codec for a stateful, versioned network protocol.
//!
//! The crate covers four tightly coupled pieces:
//! - the variable-length 32-bit integer encoding (`VarInt`) used throughout
//!   the wire format,
//! - the length-prefixed packet framing protocol ([`PacketFrame`]),
//! - the typed value codec ([`McRead`] / [`McWrite`]) for fixed-width
//!   integers, booleans and length-prefixed text, together with the
//!   declaration-order field composition it supports, and
//! - the protocol context ([`ProtocolState`], [`ProtocolVersion`]) that
//!   parameterizes how a frame's payload is interpreted.

use vstd::prelude::*;
use vstd::string::StringSliceAdditionalSpecFns;

mod frame;
mod io;
mod rw;

pub use frame::PacketDecode;
pub use frame::PacketEncode;
pub use frame::PacketFrame;
pub use frame::lemma_frame_round_trip;
pub use frame::spec_read_frame;
pub use io::McError;
pub use io::McReader;
pub use io::ReadMcExt;
pub use io::WriteMcExt;
pub use io::lemma_var_i32_round_trip;
pub use io::lemma_var_u32_round_trip;
pub use io::spec_read_var_len;
pub use io::spec_read_var_u32;
pub use io::var_decode;
pub use io::var_i32_byte_length;
pub use io::var_i32_bytes;
pub use io::var_u32_bytes;
pub use rw::McRead;
pub use rw::McWrite;
pub use rw::be_accum;
pub use rw::be_bytes;
pub use rw::lemma_be_accum_bound;
pub use rw::pow256;

verus! {

/// The coarse connection phase gating which packets are valid.
///
/// Purely descriptive here; transitions are driven by the connection layer.
#[derive(Copy, Clone, Eq, PartialEq, Structural, Debug, Hash)]
pub enum ProtocolState {
    Handshake,
    Status,
    Login,
    Play,
}

impl Default for ProtocolState {
    /// A fresh connection starts in the handshake phase.
    fn default() -> (r: Self)
        ensures
            r == ProtocolState::Handshake,
    {
        ProtocolState::Handshake
    }
}

/// A specific numbered revision of the wire format, associated with the
/// human-readable game version names it supports.
///
/// The catalog of known versions is fixed at build time and never mutated;
/// lookups are pure and an unmatched query returns `None`.
#[derive(Clone, Eq, PartialEq, Ord, PartialOrd, Debug, Hash)]
pub struct ProtocolVersion {
    protocol: i32,
    names: Vec<String>,
}

impl ProtocolVersion {
    /// The number that identifies this protocol version.
    pub closed spec fn spec_protocol(self) -> i32 {
        self.protocol
    }

    /// The supported game version names, as character sequences.
    pub closed spec fn spec_names(self) -> Seq<Seq<char>> {
        self.names@.map_values(|s: String| s@)
    }

    /// The names of the sole catalog entry, protocol 754.
    pub open spec fn spec_names_754() -> Seq<Seq<char>> {
        seq!["1.16.4"@, "1.16.5"@]
    }

    fn v_1_16_4() -> (r: Self)
        ensures
            r.spec_protocol() == 754,
            r.spec_names() == Self::spec_names_754(),
    {
        let mut names: Vec<String> = Vec::new();
        names.push("1.16.4".to_owned());
        names.push("1.16.5".to_owned());
        let r = ProtocolVersion { protocol: 754, names };
        proof {
            assert(r.spec_names() =~= Self::spec_names_754());
        }
        r
    }

    /// Returns all known protocol versions.
    pub fn all() -> (r: Vec<ProtocolVersion>)
        ensures
            r@.len() == 1,
            r@[0].spec_protocol() == 754,
            r@[0].spec_names() == Self::spec_names_754(),
    {
        let mut versions: Vec<ProtocolVersion> = Vec::new();
        versions.push(Self::v_1_16_4());
        versions
    }

    /// Looks up the catalog by protocol number; `None` when no entry has it.
    pub fn find_by_protocol(protocol: i32) -> (r: Option<ProtocolVersion>)
        ensures
            match r {
                Some(v) => protocol == 754 && v.spec_protocol() == 754 && v.spec_names()
                    == Self::spec_names_754(),
                None => protocol != 754,
            },
    {
        if protocol == 754 {
            Some(Self::v_1_16_4())
        } else {
            None
        }
    }

    /// Looks up the catalog by game version name; `None` when no entry
    /// supports it.
    pub fn find_by_name(name: &str) -> (r: Option<ProtocolVersion>)
        ensures
            match r {
                Some(v) => (name@ == "1.16.4"@ || name@ == "1.16.5"@) && v.spec_protocol() == 754
                    && v.spec_names() == Self::spec_names_754(),
                None => name@ != "1.16.4"@ && name@ != "1.16.5"@,
            },
    {
        if str_eq(name, "1.16.4") || str_eq(name, "1.16.5") {
            Some(Self::v_1_16_4())
        } else {
            None
        }
    }

    /// The number that identifies this protocol version.
    pub fn protocol(&self) -> (r: i32)
        ensures
            r == self.spec_protocol(),
    {
        self.protocol
    }

    /// The list of game versions supported by this protocol version.
    pub fn names(&self) -> (r: &Vec<String>)
        ensures
            r@.map_values(|s: String| s@) == self.spec_names(),
    {
        &self.names
    }
}

/// Whether two string slices hold the same characters, decided by comparing
/// their UTF-8 bytes.
fn str_eq(a: &str, b: &str) -> (r: bool)
    ensures
        r <==> a@ == b@,
{
    proof {
        vstd::utf8::encode_utf8_decode_utf8(a@);
        vstd::utf8::encode_utf8_decode_utf8(b@);
    }
    let ab: &[u8] = a.as_bytes();
    let bb: &[u8] = b.as_bytes();
    if ab.len() != bb.len() {
        return false;
    }
    let mut i: usize = 0;
    while i < ab.len()
        invariant
            0 <= i <= ab@.len(),
            ab@.len() == bb@.len(),
            ab@ == a.spec_bytes(),
            bb@ == b.spec_bytes(),
            forall|j: int| 0 <= j < i ==> ab@[j] == bb@[j],
        decreases ab@.len() - i,
    {
        if *vstd::slice::slice_index_get(ab, i) != *vstd::slice::slice_index_get(bb, i) {
            return false;
        }
        i = i + 1;
    }
    proof {
        assert(ab@ =~= bb@);
    }
    true
}

} // verus!
