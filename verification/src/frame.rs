//! The length-prefixed packet envelope.
//!
//! On the wire a frame is `varint(total_length) | varint(packet_id) |
//! payload_bytes`, where `total_length` counts the encoded id together with
//! the payload.

use vstd::prelude::*;

use crate::ProtocolState;
use crate::ProtocolVersion;
use crate::io::McError;
use crate::io::McReader;
use crate::io::ReadMcExt;
use crate::io::WriteMcExt;
use crate::io::lemma_var_decode_bounds;
use crate::io::lemma_var_decode_take;
use crate::io::lemma_var_i32_round_trip;
use crate::io::spec_read_var_len;
use crate::io::spec_read_var_u32;
use crate::io::var_i32_byte_length;
use crate::io::var_i32_bytes;

verus! {

/// A packet envelope: an id and an opaque payload, with the content length
/// as it stood on the wire cached when the frame was decoded from a stream.
///
/// `body` excludes the id's own encoding. A frame exclusively owns its body
/// buffer; an API that exposes a mutable view onto the body drops the cached
/// length so it is recomputed fresh.
#[derive(Clone, Eq, PartialEq, Debug, Hash)]
pub struct PacketFrame {
    content_len: Option<usize>,
    id: i32,
    body: Vec<u8>,
}

/// The outcome of decoding a frame from the front of `s`: the id, the body,
/// the declared content length and the total bytes consumed, or the exact
/// error.
pub open spec fn spec_read_frame(s: Seq<u8>) -> Result<(i32, Seq<u8>, int, int), McError> {
    match spec_read_var_len(s) {
        Err(e) => Err(e),
        Ok((l, n)) => if s.len() - n < l {
            Err(McError::TruncatedStream)
        } else {
            let content = s.subrange(n, n + l);
            match spec_read_var_u32(content) {
                Err(e) => Err(e),
                Ok((idu, m)) => Ok((idu as i32, content.skip(m), l as int, n + l)),
            }
        },
    }
}

impl PacketFrame {
    /// The packet id carried by this frame.
    pub closed spec fn spec_id(self) -> i32 {
        self.id
    }

    /// The payload bytes, excluding the id's encoding.
    pub closed spec fn spec_body(self) -> Seq<u8> {
        self.body@
    }

    /// The content length cached from the wire, if the frame was decoded
    /// from a stream and no mutable view has been taken since.
    pub closed spec fn cached(self) -> Option<int> {
        match self.content_len {
            Some(n) => Some(n as int),
            None => None,
        }
    }

    /// If the cached length is set, it equals the byte count of the id
    /// encoding that stood on the wire plus the body size.
    pub open spec fn wf(self) -> bool {
        match self.cached() {
            Some(n) => exists|enc: Seq<u8>|
                #[trigger] spec_read_var_u32(enc) == Ok::<(u32, int), McError>(
                    (self.spec_id() as u32, enc.len() as int),
                ) && n == enc.len() + self.spec_body().len(),
            None => true,
        }
    }

    /// The effective content length: the cached value if present, else the
    /// id's encoded size plus the body size.
    pub open spec fn spec_content_len(self) -> int {
        match self.cached() {
            Some(n) => n,
            None => var_i32_bytes(self.spec_id()).len() + self.spec_body().len() as int,
        }
    }

    /// The exact bytes this frame puts on the wire: the content length, the
    /// id, then the raw body.
    pub open spec fn spec_frame_bytes(self) -> Seq<u8> {
        var_i32_bytes(self.spec_content_len() as i32) + var_i32_bytes(self.spec_id())
            + self.spec_body()
    }

    /// A frame assembled by an encoder: no cached length; it is recomputed
    /// on demand.
    pub fn new(id: i32, body: Vec<u8>) -> (r: Self)
        ensures
            r.wf(),
            r.spec_id() == id,
            r.spec_body() == body@,
            r.cached() == None::<int>,
    {
        PacketFrame { content_len: None, id, body }
    }

    /// Decodes a frame: a declared length, then that many content bytes
    /// holding the id and the body. Fails with `TruncatedStream` if the
    /// stream holds fewer bytes than declared.
    pub fn read_sync(reader: &mut McReader) -> (r: Result<Self, McError>)
        requires
            old(reader).source_wf(),
        ensures
            final(reader).source_wf(),
            final(reader).source() == old(reader).source(),
            old(reader).position() <= final(reader).position() <= old(reader).source().len(),
            match (r, spec_read_frame(old(reader).remaining())) {
                (Ok(frame), Ok((id, body, l, consumed))) => frame.wf() && frame.spec_id() == id
                    && frame.spec_body() == body && frame.cached() == Some(l)
                    && final(reader).position() == old(reader).position() + consumed,
                (Err(e), Err(e2)) => e == e2,
                _ => false,
            },
    {
        let content_len: usize = match reader.read_var_i32_length() {
            Ok(l) => l,
            Err(e) => {
                return Err(e);
            },
        };
        proof {
            vstd::seq_lib::lemma_seq_skip_of_skip(
                old(reader).source(),
                old(reader).position(),
                reader.position() - old(reader).position(),
            );
            assert(reader.remaining() =~= old(reader).remaining().skip(
                reader.position() - old(reader).position(),
            ));
        }
        let content: Vec<u8> = match reader.take_bytes(content_len) {
            Ok(c) => c,
            Err(e) => {
                return Err(e);
            },
        };
        proof {
            let n = spec_read_var_len(old(reader).remaining())->Ok_0.1;
            assert(content@ =~= old(reader).remaining().subrange(n, n + content_len));
        }
        Self::read_content(content, content_len)
    }

    /// Decodes the content of a frame, already read whole off the stream:
    /// the id from the front, the rest as the body. The cached length is set
    /// to the content size as declared on the wire.
    pub fn read_content(content: Vec<u8>, content_len: usize) -> (r: Result<Self, McError>)
        requires
            content_len == content@.len(),
        ensures
            match (r, spec_read_var_u32(content@)) {
                (Ok(frame), Ok((idu, m))) => frame.wf() && frame.spec_id() == idu as i32
                    && frame.spec_body() == content@.skip(m) && frame.cached() == Some(
                    content@.len() as int,
                ),
                (Err(e), Err(e2)) => e == e2,
                _ => false,
            },
    {
        let ghost content_seq = content@;
        let mut inner = McReader::new(content.as_slice());
        proof {
            assert(inner.remaining() =~= content_seq);
        }
        let id: i32 = match inner.read_var_i32() {
            Ok(i) => i,
            Err(e) => {
                return Err(e);
            },
        };
        let m: usize = inner.stream_position();
        let mut content = content;
        let body: Vec<u8> = content.split_off(m);
        proof {
            lemma_var_decode_bounds(content_seq, 5);
            lemma_var_decode_take(content_seq, 5);
            assert((id as u32) as i32 == id) by (bit_vector);
            assert(body@ =~= content_seq.skip(m as int));
            let enc = content_seq.take(m as int);
            assert(enc.len() == m);
            assert(spec_read_var_u32(enc) == Ok::<(u32, int), McError>((id as u32, m as int)));
        }
        Ok(PacketFrame { content_len: Some(content_len), id, body })
    }

    /// Writes the frame: the content length, the id, then the raw body, in
    /// that exact order. Fails with `InvalidLength`, writing nothing, if the
    /// content length cannot be represented as a 32-bit value.
    pub fn write_sync(&self, w: &mut Vec<u8>) -> (r: Result<(), McError>)
        requires
            self.wf(),
            self.spec_content_len() <= usize::MAX,
        ensures
            match r {
                Ok(u) => self.spec_content_len() <= i32::MAX && final(w)@ == old(w)@
                    + self.spec_frame_bytes(),
                Err(e) => e == McError::InvalidLength && self.spec_content_len() > i32::MAX
                    && final(w)@ == old(w)@,
            },
    {
        let l: usize = self.content_len();
        match w.write_var_i32_length(l) {
            Ok(_) => {},
            Err(e) => {
                return Err(e);
            },
        }
        w.write_var_i32(self.id);
        w.extend_from_slice(self.body.as_slice());
        proof {
            assert(w@ =~= old(w)@ + self.spec_frame_bytes());
        }
        Ok(())
    }

    /// The total wire size of the frame: the length prefix's own size plus
    /// the content length.
    pub fn len(&self) -> (r: usize)
        requires
            self.wf(),
            self.spec_content_len() <= i32::MAX,
        ensures
            r == var_i32_bytes(self.spec_content_len() as i32).len() + self.spec_content_len(),
    {
        let content_len: usize = self.content_len();
        var_i32_byte_length(content_len as i32) + content_len
    }

    /// The effective content length: cached if present, else recomputed as
    /// the id's encoded size plus the body size.
    pub fn content_len(&self) -> (r: usize)
        requires
            self.wf(),
            self.spec_content_len() <= usize::MAX,
        ensures
            r == self.spec_content_len(),
    {
        match self.content_len {
            Some(l) => l,
            None => var_i32_byte_length(self.id) + self.body.len(),
        }
    }

    /// The packet id.
    pub fn id(&self) -> (r: i32)
        ensures
            r == self.spec_id(),
    {
        self.id
    }

    /// A seekable read view over the body, for decoding payload fields
    /// without an intermediate copy.
    pub fn reader(&self) -> (r: McReader)
        ensures
            r.source_wf(),
            r.source() == self.spec_body(),
            r.position() == 0,
    {
        McReader::new(self.body.as_slice())
    }

    /// An appendable write view onto the body. Taking it drops the cached
    /// length, so the content length is recomputed fresh afterwards.
    pub fn writer(&mut self) -> (r: &mut Vec<u8>)
        ensures
            (*r)@ == old(self).spec_body(),
            final(self).spec_body() == (*final(r))@,
            final(self).spec_id() == old(self).spec_id(),
            final(self).cached() == None::<int>,
            final(self).wf(),
    {
        self.content_len = None;
        &mut self.body
    }
}

/// Law: a frame whose content length is the id's encoded size plus the body
/// size — every encoder-assembled frame, and every frame decoded from a
/// canonically encoded wire — reads back from its own wire bytes with the
/// same id and the same body, consuming exactly those bytes.
pub proof fn lemma_frame_round_trip(frame: PacketFrame, rest: Seq<u8>)
    requires
        frame.wf(),
        frame.spec_content_len() <= i32::MAX,
        frame.spec_content_len() == var_i32_bytes(frame.spec_id()).len()
            + frame.spec_body().len(),
    ensures
        match spec_read_frame(frame.spec_frame_bytes() + rest) {
            Ok((id, body, l, consumed)) => id == frame.spec_id() && body == frame.spec_body()
                && l == frame.spec_content_len() && consumed == frame.spec_frame_bytes().len(),
            Err(e) => false,
        },
{
    let l = frame.spec_content_len();
    let s = frame.spec_frame_bytes() + rest;
    let id_and_body = var_i32_bytes(frame.spec_id()) + frame.spec_body();
    lemma_var_i32_round_trip(l as i32, var_i32_bytes(frame.spec_id()) + frame.spec_body() + rest);
    assert(s =~= var_i32_bytes(l as i32) + (var_i32_bytes(frame.spec_id()) + frame.spec_body()
        + rest));
    let n = var_i32_bytes(l as i32).len() as int;
    assert(((l as i32) as u32) as i32 == l as i32);
    assert(s.len() - n == l + rest.len());
    assert(s.subrange(n, n + l) =~= id_and_body);
    lemma_var_i32_round_trip(frame.spec_id(), frame.spec_body());
    let m = var_i32_bytes(frame.spec_id()).len() as int;
    assert(id_and_body =~= var_i32_bytes(frame.spec_id()) + frame.spec_body());
    assert(id_and_body.skip(m) =~= frame.spec_body());
}

/// Packet-level decode: a concrete packet type reads its typed fields from a
/// frame's payload, branching on `state` and `version` to choose the field
/// layout, since the same id may carry different layouts across versions.
pub trait PacketDecode: Sized {
    /// Decodes a typed packet from `frame`'s payload.
    fn decode(frame: &PacketFrame, state: &ProtocolState, version: &ProtocolVersion) -> (r: Result<
        Self,
        McError,
    >);
}

/// Packet-level encode: the mirror of [`PacketDecode`], assembling a frame
/// from a typed packet.
pub trait PacketEncode {
    /// Encodes this typed packet as a frame.
    fn encode(&self, state: &ProtocolState, version: &ProtocolVersion) -> (r: Result<
        PacketFrame,
        McError,
    >)
        ensures
            match r {
                Ok(frame) => frame.wf(),
                Err(e) => true,
            },
    ;
}

} // verus!
