//! The typed value codec: reading and writing protocol data types (not
//! packets themselves).
//!
//! Fixed-width integers use big-endian byte order; booleans are one byte;
//! text is a `VarInt` byte-count prefix followed by that many UTF-8 bytes.
//! Values compose in declaration order: a pair reads its first component and
//! then its second from the same stream, so arbitrary records are decoded
//! field by field with no padding, no reordering and no default-skipping.

use vstd::prelude::*;
use vstd::string::StringSliceAdditionalSpecFns;
use vstd::utf8::decode_utf8;
use vstd::utf8::valid_utf8;

use crate::io::McError;
use crate::io::McReader;
use crate::io::ReadMcExt;
use crate::io::WriteMcExt;
use crate::io::spec_read_var_len;
use crate::io::var_i32_bytes;

verus! {

broadcast use vstd::seq_lib::group_seq_properties;

/// 256 to the power `n`: the count of byte strings of length `n`.
pub open spec fn pow256(n: nat) -> int
    decreases n,
{
    if n == 0 {
        1
    } else {
        256 * pow256((n - 1) as nat)
    }
}

/// The big-endian bytes of `v`, `width` of them: most significant first.
pub open spec fn be_bytes(v: int, width: nat) -> Seq<u8>
    decreases width,
{
    if width == 0 {
        Seq::empty()
    } else {
        be_bytes(v / 256, (width - 1) as nat).push((v % 256) as u8)
    }
}

/// The value of `s` read as a big-endian integer.
pub open spec fn be_accum(s: Seq<u8>) -> int
    decreases s.len(),
{
    if s.len() == 0 {
        0
    } else {
        be_accum(s.drop_last()) * 256 + s.last()
    }
}

/// A big-endian value fits in as many bytes as were read.
pub proof fn lemma_be_accum_bound(s: Seq<u8>)
    ensures
        0 <= be_accum(s) < pow256(s.len()),
    decreases s.len(),
{
    if s.len() > 0 {
        lemma_be_accum_bound(s.drop_last());
    }
}

fn read_be_bytes(reader: &mut McReader, width: usize) -> (r: Result<u128, McError>)
    requires
        old(reader).source_wf(),
        width <= 16,
    ensures
        final(reader).source_wf(),
        final(reader).source() == old(reader).source(),
        old(reader).position() <= final(reader).position() <= old(reader).source().len(),
        match r {
            Ok(v) => old(reader).remaining().len() >= width && v == be_accum(
                old(reader).remaining().take(width as int),
            ) && final(reader).position() == old(reader).position() + width,
            Err(e) => e == McError::TruncatedStream && old(reader).remaining().len() < width
                && final(reader).position() == old(reader).position(),
        },
{
    if reader.remaining_len() < width {
        return Err(McError::TruncatedStream);
    }
    let ghost src0 = reader.source();
    let ghost pos0 = reader.position();
    let ghost rem = reader.remaining();
    let mut acc: u128 = 0;
    let mut i: usize = 0;
    while i < width
        invariant
            i <= width,
            width <= 16,
            reader.source_wf(),
            reader.source() == src0,
            reader.position() == pos0 + i,
            0 <= pos0,
            rem == src0.skip(pos0),
            rem.len() >= width,
            acc == be_accum(rem.take(i as int)),
            0 <= acc < pow256(i as nat),
        decreases width - i,
    {
        let ghost rem_i = reader.remaining();
        proof {
            assert(rem_i.len() == src0.len() - (pos0 + i));
            assert(rem_i.len() > 0);
        }
        let b: u8 = match reader.read_u8() {
            Ok(b) => b,
            Err(e) => {
                proof {
                    assert(false);
                }
                return Err(e);
            },
        };
        proof {
            assert(b == rem_i[0]);
            assert(rem_i[0] == src0[pos0 + i]);
            assert(rem[i as int] == src0[pos0 + i]);
            assert(rem.take(i + 1).drop_last() =~= rem.take(i as int));
            assert(rem.take(i + 1).last() == rem[i as int]);
            lemma_pow256_le_16(i as nat);
            lemma_pow256_le_16((i + 1) as nat);
        }
        acc = acc * 256 + (b as u128);
        i = i + 1;
    }
    proof {
        assert(rem == old(reader).remaining());
    }
    Ok(acc)
}

proof fn lemma_pow256_pos(n: nat)
    ensures
        pow256(n) >= 1,
    decreases n,
{
    if n > 0 {
        lemma_pow256_pos((n - 1) as nat);
    }
}

proof fn lemma_pow256_le_16(n: nat)
    requires
        n <= 16,
    ensures
        1 <= pow256(n) <= 0x1_0000_0000_0000_0000_0000_0000_0000_0000,
    decreases 16 - n,
{
    lemma_pow256_pos(n);
    if n < 16 {
        lemma_pow256_le_16(n + 1);
        assert(pow256(n + 1) == 256 * pow256(n));
    } else {
        lemma_pow256_16();
    }
}

proof fn lemma_pow256_values()
    ensures
        pow256(1) == 0x100,
        pow256(2) == 0x1_0000,
        pow256(4) == 0x1_0000_0000,
        pow256(8) == 0x1_0000_0000_0000_0000,
        pow256(16) == 0x1_0000_0000_0000_0000_0000_0000_0000_0000,
{
    lemma_pow256_16();
    assert(pow256(0) == 1);
    assert(pow256(1) == 0x100);
    assert(pow256(2) == 0x1_0000);
    assert(pow256(3) == 0x100_0000);
    assert(pow256(4) == 0x1_0000_0000);
    assert(pow256(5) == 0x100_0000_0000);
    assert(pow256(6) == 0x1_0000_0000_0000);
    assert(pow256(7) == 0x100_0000_0000_0000);
    assert(pow256(8) == 0x1_0000_0000_0000_0000);
}

proof fn lemma_pow256_16()
    ensures
        pow256(16) == 0x1_0000_0000_0000_0000_0000_0000_0000_0000,
{
    assert(pow256(0) == 1);
    assert(pow256(1) == 0x100);
    assert(pow256(2) == 0x1_0000);
    assert(pow256(3) == 0x100_0000);
    assert(pow256(4) == 0x1_0000_0000);
    assert(pow256(5) == 0x100_0000_0000);
    assert(pow256(6) == 0x1_0000_0000_0000);
    assert(pow256(7) == 0x100_0000_0000_0000);
    assert(pow256(8) == 0x1_0000_0000_0000_0000);
    assert(pow256(9) == 0x100_0000_0000_0000_0000);
    assert(pow256(10) == 0x1_0000_0000_0000_0000_0000);
    assert(pow256(11) == 0x100_0000_0000_0000_0000_0000);
    assert(pow256(12) == 0x1_0000_0000_0000_0000_0000_0000);
    assert(pow256(13) == 0x100_0000_0000_0000_0000_0000_0000);
    assert(pow256(14) == 0x1_0000_0000_0000_0000_0000_0000_0000);
    assert(pow256(15) == 0x100_0000_0000_0000_0000_0000_0000_0000);
    assert(pow256(16) == 0x1_0000_0000_0000_0000_0000_0000_0000_0000);
}

fn write_be_bytes(w: &mut Vec<u8>, v: u128, width: usize)
    requires
        width <= 16,
    ensures
        final(w)@ == old(w)@ + be_bytes(v as int, width as nat),
    decreases width,
{
    if width == 0 {
        proof {
            assert(old(w)@ + be_bytes(v as int, 0) =~= old(w)@);
        }
        return ;
    }
    write_be_bytes(w, v / 256, width - 1);
    w.push((v % 256) as u8);
    proof {
        assert(w@ =~= old(w)@ + be_bytes(v as int, width as nat));
    }
}

/// Decode half of the typed value codec.
///
/// `spec_read` is each type's exact wire meaning: what value the front of a
/// stream denotes and how many bytes it occupies, or which failure it is.
/// `read` is proved against it. A record type composes by reading its fields
/// in declaration order; see the pair implementation.
pub trait McRead: Sized + View {
    /// The outcome of decoding a value of this type from the front of `s`:
    /// its abstract value and the count of bytes consumed, or the exact
    /// error.
    spec fn spec_read(s: Seq<u8>) -> Result<(Self::V, int), McError>;

    /// Reads one value of this type from `reader`.
    fn read(reader: &mut McReader) -> (r: Result<Self, McError>)
        requires
            old(reader).source_wf(),
        ensures
            final(reader).source_wf(),
            final(reader).source() == old(reader).source(),
            old(reader).position() <= final(reader).position() <= old(reader).source().len(),
            match r {
                Ok(v) => Self::spec_read(old(reader).remaining()) == Ok::<(Self::V, int), McError>(
                    (v@, final(reader).position() - old(reader).position()),
                ),
                Err(e) => Self::spec_read(old(reader).remaining()) == Err::<
                    (Self::V, int),
                    McError,
                >(e),
            };

    /// Replaces `self` with a value read from `reader`; on failure `self` is
    /// left as it was.
    fn read_into(&mut self, reader: &mut McReader) -> (r: Result<(), McError>)
        requires
            old(reader).source_wf(),
        ensures
            final(reader).source_wf(),
            final(reader).source() == old(reader).source(),
            old(reader).position() <= final(reader).position() <= old(reader).source().len(),
            match r {
                Ok(u) => Self::spec_read(old(reader).remaining()) == Ok::<(Self::V, int), McError>(
                    (final(self)@, final(reader).position() - old(reader).position()),
                ),
                Err(e) => Self::spec_read(old(reader).remaining()) == Err::<
                    (Self::V, int),
                    McError,
                >(e) && *final(self) == *old(self),
            },
    {
        match Self::read(reader) {
            Ok(v) => {
                *self = v;
                Ok(())
            },
            Err(e) => Err(e),
        }
    }
}

/// Encode half of the typed value codec: the mirror of [`McRead`].
///
/// `spec_write` is each type's exact wire bytes, or which failure it is;
/// `write` is proved against it and appends either all of those bytes or
/// none.
pub trait McWrite: View {
    /// The bytes a value of this type puts on the wire, or the exact error.
    spec fn spec_write(v: Self::V) -> Result<Seq<u8>, McError>;

    /// Writes this value to `w`.
    fn write(&self, w: &mut Vec<u8>) -> (r: Result<(), McError>)
        ensures
            match r {
                Ok(u) => Self::spec_write(self@) matches Ok(bytes) && final(w)@ == old(w)@ + bytes,
                Err(e) => Self::spec_write(self@) == Err::<Seq<u8>, McError>(e) && final(w)@ == old(
                    w,
                )@,
            };
}


impl McRead for u8 {
    open spec fn spec_read(s: Seq<u8>) -> Result<(u8, int), McError> {
        if s.len() < 1 {
            Err(McError::TruncatedStream)
        } else {
            Ok((be_accum(s.take(1)) as u8, 1))
        }
    }

    fn read(reader: &mut McReader) -> (r: Result<u8, McError>) {
        proof {
            lemma_be_accum_bound(old(reader).remaining().take(1));
            lemma_pow256_values();
        }
        match read_be_bytes(reader, 1) {
            Ok(v) => Ok(v as u8),
            Err(e) => Err(e),
        }
    }
}

impl McWrite for u8 {
    open spec fn spec_write(v: u8) -> Result<Seq<u8>, McError> {
        Ok(be_bytes(v as int, 1))
    }

    fn write(&self, w: &mut Vec<u8>) -> (r: Result<(), McError>) {
        write_be_bytes(w, *self as u128, 1);
        Ok(())
    }
}

impl McRead for u16 {
    open spec fn spec_read(s: Seq<u8>) -> Result<(u16, int), McError> {
        if s.len() < 2 {
            Err(McError::TruncatedStream)
        } else {
            Ok((be_accum(s.take(2)) as u16, 2))
        }
    }

    fn read(reader: &mut McReader) -> (r: Result<u16, McError>) {
        proof {
            lemma_be_accum_bound(old(reader).remaining().take(2));
            lemma_pow256_values();
        }
        match read_be_bytes(reader, 2) {
            Ok(v) => Ok(v as u16),
            Err(e) => Err(e),
        }
    }
}

impl McWrite for u16 {
    open spec fn spec_write(v: u16) -> Result<Seq<u8>, McError> {
        Ok(be_bytes(v as int, 2))
    }

    fn write(&self, w: &mut Vec<u8>) -> (r: Result<(), McError>) {
        write_be_bytes(w, *self as u128, 2);
        Ok(())
    }
}

impl McRead for u32 {
    open spec fn spec_read(s: Seq<u8>) -> Result<(u32, int), McError> {
        if s.len() < 4 {
            Err(McError::TruncatedStream)
        } else {
            Ok((be_accum(s.take(4)) as u32, 4))
        }
    }

    fn read(reader: &mut McReader) -> (r: Result<u32, McError>) {
        proof {
            lemma_be_accum_bound(old(reader).remaining().take(4));
            lemma_pow256_values();
        }
        match read_be_bytes(reader, 4) {
            Ok(v) => Ok(v as u32),
            Err(e) => Err(e),
        }
    }
}

impl McWrite for u32 {
    open spec fn spec_write(v: u32) -> Result<Seq<u8>, McError> {
        Ok(be_bytes(v as int, 4))
    }

    fn write(&self, w: &mut Vec<u8>) -> (r: Result<(), McError>) {
        write_be_bytes(w, *self as u128, 4);
        Ok(())
    }
}

impl McRead for u64 {
    open spec fn spec_read(s: Seq<u8>) -> Result<(u64, int), McError> {
        if s.len() < 8 {
            Err(McError::TruncatedStream)
        } else {
            Ok((be_accum(s.take(8)) as u64, 8))
        }
    }

    fn read(reader: &mut McReader) -> (r: Result<u64, McError>) {
        proof {
            lemma_be_accum_bound(old(reader).remaining().take(8));
            lemma_pow256_values();
        }
        match read_be_bytes(reader, 8) {
            Ok(v) => Ok(v as u64),
            Err(e) => Err(e),
        }
    }
}

impl McWrite for u64 {
    open spec fn spec_write(v: u64) -> Result<Seq<u8>, McError> {
        Ok(be_bytes(v as int, 8))
    }

    fn write(&self, w: &mut Vec<u8>) -> (r: Result<(), McError>) {
        write_be_bytes(w, *self as u128, 8);
        Ok(())
    }
}

impl McRead for u128 {
    open spec fn spec_read(s: Seq<u8>) -> Result<(u128, int), McError> {
        if s.len() < 16 {
            Err(McError::TruncatedStream)
        } else {
            Ok((be_accum(s.take(16)) as u128, 16))
        }
    }

    fn read(reader: &mut McReader) -> (r: Result<u128, McError>) {
        proof {
            lemma_be_accum_bound(old(reader).remaining().take(16));
            lemma_pow256_values();
        }
        match read_be_bytes(reader, 16) {
            Ok(v) => Ok(v),
            Err(e) => Err(e),
        }
    }
}

impl McWrite for u128 {
    open spec fn spec_write(v: u128) -> Result<Seq<u8>, McError> {
        Ok(be_bytes(v as int, 16))
    }

    fn write(&self, w: &mut Vec<u8>) -> (r: Result<(), McError>) {
        write_be_bytes(w, *self, 16);
        Ok(())
    }
}

impl McRead for i8 {
    open spec fn spec_read(s: Seq<u8>) -> Result<(i8, int), McError> {
        if s.len() < 1 {
            Err(McError::TruncatedStream)
        } else {
            Ok((be_accum(s.take(1)) as u8 as i8, 1))
        }
    }

    fn read(reader: &mut McReader) -> (r: Result<i8, McError>) {
        proof {
            lemma_be_accum_bound(old(reader).remaining().take(1));
            lemma_pow256_values();
        }
        match read_be_bytes(reader, 1) {
            Ok(v) => Ok(v as u8 as i8),
            Err(e) => Err(e),
        }
    }
}

impl McWrite for i8 {
    open spec fn spec_write(v: i8) -> Result<Seq<u8>, McError> {
        Ok(be_bytes((v as u8) as int, 1))
    }

    fn write(&self, w: &mut Vec<u8>) -> (r: Result<(), McError>) {
        write_be_bytes(w, *self as u8 as u128, 1);
        Ok(())
    }
}

impl McRead for i16 {
    open spec fn spec_read(s: Seq<u8>) -> Result<(i16, int), McError> {
        if s.len() < 2 {
            Err(McError::TruncatedStream)
        } else {
            Ok((be_accum(s.take(2)) as u16 as i16, 2))
        }
    }

    fn read(reader: &mut McReader) -> (r: Result<i16, McError>) {
        proof {
            lemma_be_accum_bound(old(reader).remaining().take(2));
            lemma_pow256_values();
        }
        match read_be_bytes(reader, 2) {
            Ok(v) => Ok(v as u16 as i16),
            Err(e) => Err(e),
        }
    }
}

impl McWrite for i16 {
    open spec fn spec_write(v: i16) -> Result<Seq<u8>, McError> {
        Ok(be_bytes((v as u16) as int, 2))
    }

    fn write(&self, w: &mut Vec<u8>) -> (r: Result<(), McError>) {
        write_be_bytes(w, *self as u16 as u128, 2);
        Ok(())
    }
}

impl McRead for i32 {
    open spec fn spec_read(s: Seq<u8>) -> Result<(i32, int), McError> {
        if s.len() < 4 {
            Err(McError::TruncatedStream)
        } else {
            Ok((be_accum(s.take(4)) as u32 as i32, 4))
        }
    }

    fn read(reader: &mut McReader) -> (r: Result<i32, McError>) {
        proof {
            lemma_be_accum_bound(old(reader).remaining().take(4));
            lemma_pow256_values();
        }
        match read_be_bytes(reader, 4) {
            Ok(v) => Ok(v as u32 as i32),
            Err(e) => Err(e),
        }
    }
}

impl McWrite for i32 {
    open spec fn spec_write(v: i32) -> Result<Seq<u8>, McError> {
        Ok(be_bytes((v as u32) as int, 4))
    }

    fn write(&self, w: &mut Vec<u8>) -> (r: Result<(), McError>) {
        write_be_bytes(w, *self as u32 as u128, 4);
        Ok(())
    }
}

impl McRead for i64 {
    open spec fn spec_read(s: Seq<u8>) -> Result<(i64, int), McError> {
        if s.len() < 8 {
            Err(McError::TruncatedStream)
        } else {
            Ok((be_accum(s.take(8)) as u64 as i64, 8))
        }
    }

    fn read(reader: &mut McReader) -> (r: Result<i64, McError>) {
        proof {
            lemma_be_accum_bound(old(reader).remaining().take(8));
            lemma_pow256_values();
        }
        match read_be_bytes(reader, 8) {
            Ok(v) => Ok(v as u64 as i64),
            Err(e) => Err(e),
        }
    }
}

impl McWrite for i64 {
    open spec fn spec_write(v: i64) -> Result<Seq<u8>, McError> {
        Ok(be_bytes((v as u64) as int, 8))
    }

    fn write(&self, w: &mut Vec<u8>) -> (r: Result<(), McError>) {
        write_be_bytes(w, *self as u64 as u128, 8);
        Ok(())
    }
}

impl McRead for i128 {
    open spec fn spec_read(s: Seq<u8>) -> Result<(i128, int), McError> {
        if s.len() < 16 {
            Err(McError::TruncatedStream)
        } else {
            Ok((be_accum(s.take(16)) as u128 as i128, 16))
        }
    }

    fn read(reader: &mut McReader) -> (r: Result<i128, McError>) {
        proof {
            lemma_be_accum_bound(old(reader).remaining().take(16));
            lemma_pow256_values();
        }
        match read_be_bytes(reader, 16) {
            Ok(v) => Ok(v as u128 as i128),
            Err(e) => Err(e),
        }
    }
}

impl McWrite for i128 {
    open spec fn spec_write(v: i128) -> Result<Seq<u8>, McError> {
        Ok(be_bytes((v as u128) as int, 16))
    }

    fn write(&self, w: &mut Vec<u8>) -> (r: Result<(), McError>) {
        write_be_bytes(w, *self as u128 as u128, 16);
        Ok(())
    }
}

impl McRead for bool {
    open spec fn spec_read(s: Seq<u8>) -> Result<(bool, int), McError> {
        if s.len() < 1 {
            Err(McError::TruncatedStream)
        } else {
            Ok((s[0] != 0, 1))
        }
    }

    fn read(reader: &mut McReader) -> (r: Result<bool, McError>) {
        match reader.read_u8() {
            Ok(b) => Ok(b != 0x00),
            Err(e) => Err(e),
        }
    }
}

impl McWrite for bool {
    open spec fn spec_write(v: bool) -> Result<Seq<u8>, McError> {
        Ok(seq![if v { 1u8 } else { 0u8 }])
    }

    fn write(&self, w: &mut Vec<u8>) -> (r: Result<(), McError>) {
        let b: u8 = if *self { 0x01 } else { 0x00 };
        w.push(b);
        proof {
            assert(w@ =~= old(w)@ + seq![if *self { 1u8 } else { 0u8 }]);
        }
        Ok(())
    }
}

/// The error type of the standard library's checked UTF-8 conversion,
/// declared so that the conversion can be given a specification.
#[verifier::external_type_specification]
#[verifier::external_body]
pub struct ExUtf8Error(core::str::Utf8Error);

/// Relies on `core::str::from_utf8`: it succeeds exactly on valid UTF-8 —
/// as vstd's `valid_utf8` defines it — and the string slice it yields is a
/// view of exactly the given bytes.
pub assume_specification[ core::str::from_utf8 ](v: &[u8]) -> (r: Result<
    &str,
    core::str::Utf8Error,
>)
    ensures
        r is Ok <==> valid_utf8(v@),
        r matches Ok(s) ==> s.spec_bytes() == v@,
;

impl McRead for String {
    open spec fn spec_read(s: Seq<u8>) -> Result<(Seq<char>, int), McError> {
        match spec_read_var_len(s) {
            Err(e) => Err(e),
            Ok((l, n)) => if s.len() - n < l {
                Err(McError::TruncatedStream)
            } else if !valid_utf8(s.subrange(n, n + l)) {
                Err(McError::InvalidUtf8)
            } else {
                Ok((decode_utf8(s.subrange(n, n + l)), n + l))
            },
        }
    }

    fn read(reader: &mut McReader) -> (r: Result<String, McError>) {
        let l: usize = match reader.read_var_i32_length() {
            Ok(l) => l,
            Err(e) => {
                return Err(e);
            },
        };
        let ghost n = reader.position() - old(reader).position();
        proof {
            vstd::seq_lib::lemma_seq_skip_of_skip(
                old(reader).source(),
                old(reader).position(),
                n,
            );
            assert(reader.remaining() =~= old(reader).remaining().skip(n));
        }
        let bytes: Vec<u8> = match reader.take_bytes(l) {
            Ok(b) => b,
            Err(e) => {
                return Err(e);
            },
        };
        proof {
            assert(bytes@ =~= old(reader).remaining().subrange(n, n + l));
        }
        match core::str::from_utf8(bytes.as_slice()) {
            Ok(t) => {
                proof {
                    vstd::utf8::encode_utf8_decode_utf8(t@);
                }
                Ok(t.to_owned())
            },
            Err(_) => Err(McError::InvalidUtf8),
        }
    }
}

impl McWrite for String {
    open spec fn spec_write(v: Seq<char>) -> Result<Seq<u8>, McError> {
        if vstd::utf8::encode_utf8(v).len() > i32::MAX {
            Err(McError::InvalidLength)
        } else {
            Ok(var_i32_bytes(vstd::utf8::encode_utf8(v).len() as i32) + vstd::utf8::encode_utf8(v))
        }
    }

    fn write(&self, w: &mut Vec<u8>) -> (r: Result<(), McError>) {
        let bytes: &[u8] = self.as_str().as_bytes();
        match w.write_var_i32_length(bytes.len()) {
            Ok(_) => {},
            Err(e) => {
                return Err(e);
            },
        }
        w.extend_from_slice(bytes);
        proof {
            assert(w@ =~= old(w)@ + (var_i32_bytes(bytes@.len() as i32) + bytes@));
        }
        Ok(())
    }
}

impl<A: McRead, B: McRead> McRead for (A, B) {
    /// Declaration-order composition: the first component, then the second,
    /// from the same stream; the record is assembled only after every field
    /// succeeds.
    open spec fn spec_read(s: Seq<u8>) -> Result<((A::V, B::V), int), McError> {
        match A::spec_read(s) {
            Err(e) => Err(e),
            Ok((a, n)) => match B::spec_read(s.skip(n)) {
                Err(e) => Err(e),
                Ok((b, m)) => Ok(((a, b), n + m)),
            },
        }
    }

    fn read(reader: &mut McReader) -> (r: Result<(A, B), McError>) {
        let a: A = match A::read(reader) {
            Ok(a) => a,
            Err(e) => {
                return Err(e);
            },
        };
        proof {
            vstd::seq_lib::lemma_seq_skip_of_skip(
                old(reader).source(),
                old(reader).position(),
                reader.position() - old(reader).position(),
            );
            assert(reader.remaining() =~= old(reader).remaining().skip(
                reader.position() - old(reader).position(),
            ));
        }
        let b: B = match B::read(reader) {
            Ok(b) => b,
            Err(e) => {
                return Err(e);
            },
        };
        Ok((a, b))
    }
}

impl<A: McWrite, B: McWrite> McWrite for (A, B) {
    /// The mirror composition: the first component's bytes, then the
    /// second's; nothing is written unless both succeed.
    open spec fn spec_write(v: (A::V, B::V)) -> Result<Seq<u8>, McError> {
        match A::spec_write(v.0) {
            Err(e) => Err(e),
            Ok(ab) => match B::spec_write(v.1) {
                Err(e) => Err(e),
                Ok(bb) => Ok(ab + bb),
            },
        }
    }

    fn write(&self, w: &mut Vec<u8>) -> (r: Result<(), McError>) {
        let mut buf: Vec<u8> = Vec::new();
        match self.0.write(&mut buf) {
            Ok(_) => {},
            Err(e) => {
                return Err(e);
            },
        }
        match self.1.write(&mut buf) {
            Ok(_) => {},
            Err(e) => {
                return Err(e);
            },
        }
        w.append(&mut buf);
        proof {
            assert(w@ =~= old(w)@ + (A::spec_write(self.0@)->Ok_0 + B::spec_write(self.1@)->Ok_0));
        }
        Ok(())
    }
}

} // verus!
