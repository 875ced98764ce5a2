//! The variable-length 32-bit integer codec (`VarInt`) and the byte-stream
//! cursor types that the rest of the crate reads from and writes to.
//!
//! A `VarInt` encodes a 32-bit value as little-endian groups of 7 bits: each
//! byte holds 7 value bits in its low bits, and the high bit is set on every
//! byte except the last. A value occupies 1 to 5 bytes; `0` encodes as a
//! single zero byte.

use vstd::prelude::*;

verus! {

/// A codec failure, surfaced immediately to the caller; nothing is retried
/// or silently recovered.
#[derive(Copy, Clone, Eq, PartialEq, Structural, Debug)]
pub enum McError {
    /// A `VarInt` continuation extended past the 5-byte maximum.
    MalformedVarInt,
    /// A length field was negative, or could not fit the wire format.
    InvalidLength,
    /// The stream ended before a declared byte count was available.
    TruncatedStream,
    /// Text bytes were not valid UTF-8.
    InvalidUtf8,
}

/// The exact encoding of `v` as a `VarInt`: low 7 bits first, continuation
/// bit set on every byte but the last.
pub open spec fn var_u32_bytes(v: u32) -> Seq<u8>
    decreases v,
{
    if v < 0x80 {
        seq![v as u8]
    } else {
        seq![(v % 0x80 + 0x80) as u8] + var_u32_bytes(v / 0x80)
    }
}

/// The `VarInt` encoding of a signed value: its unsigned 32-bit pattern.
pub open spec fn var_i32_bytes(v: i32) -> Seq<u8> {
    var_u32_bytes(v as u32)
}

/// The outcome of decoding a `VarInt` from the front of `s`, allowed to
/// consume at most `budget` further bytes: the value and the count of bytes
/// consumed, or the exact error.
pub open spec fn var_decode(s: Seq<u8>, budget: nat) -> Result<(u32, int), McError>
    decreases budget,
{
    if budget == 0 {
        Err(McError::MalformedVarInt)
    } else if s.len() == 0 {
        Err(McError::TruncatedStream)
    } else if s[0] < 0x80 {
        Ok((s[0] as u32, 1))
    } else {
        match var_decode(s.drop_first(), (budget - 1) as nat) {
            Ok((v, n)) => Ok((((s[0] & 0x7f) as u32) | (v << 7), n + 1)),
            Err(e) => Err(e),
        }
    }
}

/// The outcome of decoding a `VarInt` from the front of `s`: at most 5 bytes
/// for the 32-bit range; needing a 6th fails with `MalformedVarInt`.
pub open spec fn spec_read_var_u32(s: Seq<u8>) -> Result<(u32, int), McError> {
    var_decode(s, 5)
}

/// The outcome of decoding a `VarInt` used as a non-negative length:
/// a negative value fails with `InvalidLength`.
pub open spec fn spec_read_var_len(s: Seq<u8>) -> Result<(usize, int), McError> {
    match spec_read_var_u32(s) {
        Ok((v, n)) => if (v as i32) < 0 {
            Err(McError::InvalidLength)
        } else {
            Ok((v as usize, n))
        },
        Err(e) => Err(e),
    }
}

/// The exact byte length of the `VarInt` encoding, by value range.
pub proof fn lemma_var_u32_len(v: u32)
    ensures
        var_u32_bytes(v).len() == if v < 0x80 {
            1int
        } else if v < 0x4000 {
            2
        } else if v < 0x20_0000 {
            3
        } else if v < 0x1000_0000 {
            4
        } else {
            5
        },
    decreases v,
{
    if v >= 0x80 {
        lemma_var_u32_len(v / 0x80);
        assert(v < 0x4000 ==> v / 0x80 < 0x80) by (bit_vector);
        assert(v >= 0x4000 ==> v / 0x80 >= 0x80) by (bit_vector);
        assert(v < 0x20_0000 ==> v / 0x80 < 0x4000) by (bit_vector);
        assert(v >= 0x20_0000 ==> v / 0x80 >= 0x4000) by (bit_vector);
        assert(v < 0x1000_0000 ==> v / 0x80 < 0x20_0000) by (bit_vector);
        assert(v >= 0x1000_0000 ==> v / 0x80 >= 0x20_0000) by (bit_vector);
        assert(v / 0x80 < 0x1000_0000) by (bit_vector);
    }
}

/// Law: decoding an encoding yields the value back, whatever follows it on
/// the stream, and consumes exactly the encoding. Holds for every unsigned
/// 32-bit pattern.
pub proof fn lemma_var_u32_round_trip(v: u32, rest: Seq<u8>)
    ensures
        spec_read_var_u32(var_u32_bytes(v) + rest) == Ok::<(u32, int), McError>(
            (v, var_u32_bytes(v).len() as int),
        ),
        1 <= var_u32_bytes(v).len() <= 5,
{
    lemma_var_u32_len(v);
    lemma_var_decode_encode(v, rest, 5);
}

/// Law: round trip of the signed encoding, for every `i32` including `0`,
/// `-1`, `i32::MIN` and `i32::MAX`; the decoded unsigned pattern casts back
/// to the value encoded.
pub proof fn lemma_var_i32_round_trip(v: i32, rest: Seq<u8>)
    ensures
        spec_read_var_u32(var_i32_bytes(v) + rest) == Ok::<(u32, int), McError>(
            (v as u32, var_i32_bytes(v).len() as int),
        ),
        (v as u32) as i32 == v,
        1 <= var_i32_bytes(v).len() <= 5,
{
    lemma_var_u32_round_trip(v as u32, rest);
    assert((v as u32) as i32 == v) by (bit_vector);
}

proof fn lemma_var_decode_encode(v: u32, rest: Seq<u8>, budget: nat)
    requires
        var_u32_bytes(v).len() <= budget,
    ensures
        var_decode(var_u32_bytes(v) + rest, budget) == Ok::<(u32, int), McError>(
            (v, var_u32_bytes(v).len() as int),
        ),
    decreases v,
{
    let s = var_u32_bytes(v) + rest;
    if v < 0x80 {
        assert(s[0] == v as u8);
        assert(s.len() > 0);
    } else {
        lemma_var_u32_len(v);
        lemma_var_u32_len(v / 0x80);
        lemma_var_decode_encode(v / 0x80, rest, (budget - 1) as nat);
        assert(s[0] == (v % 0x80 + 0x80) as u8);
        assert(s.drop_first() =~= var_u32_bytes(v / 0x80) + rest);
        assert(s[0] >= 0x80);
        assert((((v % 0x80 + 0x80) as u8) & 0x7f) as u32 | ((v / 0x80) << 7) == v)
            by (bit_vector);
    }
}

/// A successful decode consumes between 1 and `budget` bytes, never more
/// than the stream holds.
pub proof fn lemma_var_decode_bounds(s: Seq<u8>, budget: nat)
    ensures
        match var_decode(s, budget) {
            Ok((v, n)) => 1 <= n <= budget && n <= s.len(),
            Err(e) => true,
        },
    decreases budget,
{
    if budget > 0 && s.len() > 0 && s[0] >= 0x80 {
        lemma_var_decode_bounds(s.drop_first(), (budget - 1) as nat);
    }
}

/// A decode looks only at the bytes it consumes: truncating the stream right
/// after them changes nothing.
pub proof fn lemma_var_decode_take(s: Seq<u8>, budget: nat)
    ensures
        match var_decode(s, budget) {
            Ok((v, n)) => var_decode(s.take(n), budget) == var_decode(s, budget),
            Err(e) => true,
        },
    decreases budget,
{
    if budget > 0 && s.len() > 0 && s[0] >= 0x80 {
        lemma_var_decode_take(s.drop_first(), (budget - 1) as nat);
        match var_decode(s.drop_first(), (budget - 1) as nat) {
            Ok((v1, n1)) => {
                lemma_var_decode_bounds(s.drop_first(), (budget - 1) as nat);
                assert(s.take(n1 + 1).drop_first() =~= s.drop_first().take(n1));
                assert(s.take(n1 + 1)[0] == s[0]);
            },
            Err(e) => {},
        }
    }
}

/// A seekable read view over a borrowed byte buffer: the byte source that
/// every decoder in this crate consumes.
pub struct McReader<'a> {
    bytes: &'a [u8],
    pos: usize,
}

/// Extends a byte source with methods for reading protocol data types.
pub trait ReadMcExt {
    /// The whole underlying byte buffer.
    spec fn source(&self) -> Seq<u8>;

    /// How many bytes have been consumed so far.
    spec fn position(&self) -> int;

    /// The position is within the source: it never runs past the end.
    open spec fn source_wf(&self) -> bool {
        0 <= self.position() <= self.source().len()
    }

    /// The bytes not yet consumed.
    open spec fn remaining(&self) -> Seq<u8> {
        self.source().skip(self.position())
    }

    /// Reads a variable-length encoded 32 bit integer (`VarInt`).
    ///
    /// The 7 least significant bits of each byte encode the value and the
    /// most significant bit indicates whether another byte follows. VarInts
    /// are little endian and at most 5 bytes long; needing a 6th byte fails
    /// with `MalformedVarInt`.
    fn read_var_i32(&mut self) -> (r: Result<i32, McError>)
        requires
            old(self).source_wf(),
        ensures
            final(self).source_wf(),
            final(self).source() == old(self).source(),
            old(self).position() <= final(self).position() <= old(self).source().len(),
            match r {
                Ok(v) => spec_read_var_u32(old(self).remaining()) == Ok::<(u32, int), McError>(
                    (v as u32, final(self).position() - old(self).position()),
                ),
                Err(e) => spec_read_var_u32(old(self).remaining()) == Err::<(u32, int), McError>(
                    e,
                ),
            };

    /// Reads a `VarInt` where it is to be used as a non-negative length;
    /// fails with `InvalidLength` on a negative value.
    fn read_var_i32_length(&mut self) -> (r: Result<usize, McError>)
        requires
            old(self).source_wf(),
        ensures
            final(self).source_wf(),
            final(self).source() == old(self).source(),
            old(self).position() <= final(self).position() <= old(self).source().len(),
            match r {
                Ok(n) => spec_read_var_len(old(self).remaining()) == Ok::<(usize, int), McError>(
                    (n, final(self).position() - old(self).position()),
                ),
                Err(e) => spec_read_var_len(old(self).remaining()) == Err::<(usize, int), McError>(
                    e,
                ),
            };
}

impl<'a> McReader<'a> {
    /// A reader positioned at the start of `bytes`.
    pub fn new(bytes: &'a [u8]) -> (r: Self)
        ensures
            r.source_wf(),
            r.source() == bytes@,
            r.position() == 0,
    {
        McReader { bytes, pos: 0 }
    }

    /// How many bytes are left to read.
    pub fn remaining_len(&self) -> (r: usize)
        requires
            self.source_wf(),
        ensures
            r == self.remaining().len(),
    {
        self.bytes.len() - self.pos
    }

    /// How many bytes have been consumed so far.
    pub fn stream_position(&self) -> (r: usize)
        ensures
            r == self.position(),
    {
        self.pos
    }

    /// Reads the next byte; fails with `TruncatedStream` at the end.
    pub fn read_u8(&mut self) -> (r: Result<u8, McError>)
        requires
            old(self).source_wf(),
        ensures
            final(self).source_wf(),
            final(self).source() == old(self).source(),
            match r {
                Ok(b) => old(self).remaining().len() > 0 && b == old(self).remaining()[0]
                    && final(self).position() == old(self).position() + 1,
                Err(e) => e == McError::TruncatedStream && old(self).remaining().len() == 0
                    && final(self).position() == old(self).position(),
            },
    {
        if self.pos < self.bytes.len() {
            let b: u8 = *vstd::slice::slice_index_get(self.bytes, self.pos);
            self.pos = self.pos + 1;
            Ok(b)
        } else {
            Err(McError::TruncatedStream)
        }
    }

    /// Reads exactly `n` bytes into an owned buffer; fails with
    /// `TruncatedStream`, consuming nothing, if fewer are available.
    pub fn take_bytes(&mut self, n: usize) -> (r: Result<Vec<u8>, McError>)
        requires
            old(self).source_wf(),
        ensures
            final(self).source_wf(),
            final(self).source() == old(self).source(),
            match r {
                Ok(v) => old(self).remaining().len() >= n && v@ == old(self).remaining().take(
                    n as int,
                ) && final(self).position() == old(self).position() + n,
                Err(e) => e == McError::TruncatedStream && old(self).remaining().len() < n
                    && final(self).position() == old(self).position(),
            },
    {
        if n > self.bytes.len() - self.pos {
            return Err(McError::TruncatedStream);
        }
        let sub: &[u8] = vstd::slice::slice_subrange(self.bytes, self.pos, self.pos + n);
        let v: Vec<u8> = vstd::slice::slice_to_vec(sub);
        self.pos = self.pos + n;
        proof {
            assert(v@ =~= old(self).remaining().take(n as int));
        }
        Ok(v)
    }

    fn read_var_u32_budget(&mut self, budget: u8) -> (r: Result<u32, McError>)
        requires
            old(self).source_wf(),
        ensures
            final(self).source_wf(),
            final(self).source() == old(self).source(),
            old(self).position() <= final(self).position() <= old(self).source().len(),
            match r {
                Ok(v) => var_decode(old(self).remaining(), budget as nat) == Ok::<
                    (u32, int),
                    McError,
                >((v, final(self).position() - old(self).position())),
                Err(e) => var_decode(old(self).remaining(), budget as nat) == Err::<
                    (u32, int),
                    McError,
                >(e),
            },
        decreases budget,
    {
        if budget == 0 {
            return Err(McError::MalformedVarInt);
        }
        let b: u8 = match self.read_u8() {
            Ok(b) => b,
            Err(e) => {
                return Err(e);
            },
        };
        if b < 0x80 {
            return Ok(b as u32);
        }
        proof {
            assert(self.remaining() =~= old(self).remaining().drop_first());
        }
        match self.read_var_u32_budget(budget - 1) {
            Ok(v) => Ok(((b & 0x7f) as u32) | (v << 7)),
            Err(e) => Err(e),
        }
    }
}

impl<'a> ReadMcExt for McReader<'a> {
    closed spec fn source(&self) -> Seq<u8> {
        self.bytes@
    }

    closed spec fn position(&self) -> int {
        self.pos as int
    }

    fn read_var_i32(&mut self) -> (r: Result<i32, McError>) {
        match self.read_var_u32_budget(5) {
            Ok(v) => {
                proof {
                    assert((v as i32) as u32 == v) by (bit_vector);
                }
                Ok(v as i32)
            },
            Err(e) => Err(e),
        }
    }

    fn read_var_i32_length(&mut self) -> (r: Result<usize, McError>) {
        let v: i32 = match self.read_var_i32() {
            Ok(v) => v,
            Err(e) => {
                return Err(e);
            },
        };
        proof {
            assert((v as u32) as i32 == v) by (bit_vector);
            assert(v >= 0 ==> (v as u32) as usize == v as usize) by (bit_vector);
        }
        if v < 0 {
            Err(McError::InvalidLength)
        } else {
            Ok(v as usize)
        }
    }
}

/// Extends a byte sink with methods for writing protocol data types.
pub trait WriteMcExt {
    /// The bytes written to the sink so far.
    spec fn sink(&self) -> Seq<u8>;

    /// Writes a variable-length encoded 32 bit integer (`VarInt`): the exact
    /// byte sequence `var_i32_bytes(v)` is appended.
    fn write_var_i32(&mut self, v: i32)
        ensures
            final(self).sink() == old(self).sink() + var_i32_bytes(v);

    /// Writes a `VarInt` carrying a non-negative length; fails with
    /// `InvalidLength`, writing nothing, if the length cannot be represented
    /// as a 32-bit value.
    fn write_var_i32_length(&mut self, length: usize) -> (r: Result<(), McError>)
        ensures
            match r {
                Ok(u) => length <= i32::MAX && final(self).sink() == old(self).sink()
                    + var_i32_bytes(length as i32),
                Err(e) => e == McError::InvalidLength && length > i32::MAX && final(self).sink()
                    == old(self).sink(),
            };
}

impl WriteMcExt for Vec<u8> {
    open spec fn sink(&self) -> Seq<u8> {
        self@
    }

    fn write_var_i32(&mut self, v: i32) {
        let mut cur: u32 = v as u32;
        proof {
            assert(self@ + var_u32_bytes(cur) =~= old(self)@ + var_u32_bytes(v as u32));
        }
        while cur >= 0x80
            invariant
                self@ + var_u32_bytes(cur) == old(self)@ + var_u32_bytes(v as u32),
            decreases cur,
        {
            let b: u8 = (cur % 0x80 + 0x80) as u8;
            self.push(b);
            proof {
                assert(self@ + var_u32_bytes(cur / 0x80) =~= old(self)@ + var_u32_bytes(v as u32));
            }
            cur = cur / 0x80;
        }
        self.push(cur as u8);
        proof {
            assert(self@ =~= old(self)@ + var_u32_bytes(v as u32));
        }
    }

    fn write_var_i32_length(&mut self, length: usize) -> (r: Result<(), McError>) {
        if length > i32::MAX as usize {
            Err(McError::InvalidLength)
        } else {
            self.write_var_i32(length as i32);
            Ok(())
        }
    }
}

/// The exact byte size of `v` if it were encoded as a `VarInt`: equals
/// `var_i32_bytes(v).len()` for every possible 32-bit value.
pub fn var_i32_byte_length(v: i32) -> (r: usize)
    ensures
        r == var_i32_bytes(v).len(),
        1 <= r <= 5,
{
    let u: u32 = v as u32;
    proof {
        lemma_var_u32_len(u);
    }
    if u < 0x80 {
        1
    } else if u < 0x4000 {
        2
    } else if u < 0x20_0000 {
        3
    } else if u < 0x1000_0000 {
        4
    } else {
        5
    }
}

} // verus!
