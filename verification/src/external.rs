//! The calls that this library makes into `integer_encoding`, `byteorder` and the parts of
//! std that vstd gives no specification, each with the contract that the library relies on.
use vstd::prelude::*;
use vstd::endian::{endianness, Endian};
use vstd::utf8::{decode_utf8, valid_utf8};
use byteorder::{ReadBytesExt, WriteBytesExt};
use integer_encoding::{FixedIntReader, VarIntReader, VarIntWriter};
use crate::varint::{groups_le, is_terminator, leb128_bytes};
use crate::errors::ReadError;

verus! {

/// `std::io::Error`, carried through the results of writes into a `Vec<u8>`.
#[verifier::external_type_specification]
#[verifier::external_body]
pub struct ExIoError(std::io::Error);

/// `std::string::FromUtf8Error`, the error of `String::from_utf8`.
#[verifier::external_type_specification]
#[verifier::external_body]
pub struct ExFromUtf8Error(std::string::FromUtf8Error);

/// `std::string::FromUtf16Error`, the error of `String::from_utf16`.
#[verifier::external_type_specification]
#[verifier::external_body]
pub struct ExFromUtf16Error(std::string::FromUtf16Error);

/// The value that `integer_encoding`'s varint reader decodes from the front of `s` when it
/// accepts at most `max_len` bytes: the bytes up to the first one whose high bit is clear,
/// read as base-128 digits with the least significant first; nothing when no such byte lies
/// among the first `max_len`, or when a tenth byte carries more than one bit of a 64-bit value.
pub open spec fn varint_read_value(s: Seq<u8>, max_len: nat) -> Option<nat> {
    if exists|k: int| k < max_len && #[trigger] is_terminator(s, k) {
        let k = choose|k: int| k < max_len && #[trigger] is_terminator(s, k);
        if k == 9 && s[9] >= 2 {
            None
        } else {
            Some(groups_le(s.take(k + 1)))
        }
    } else {
        None
    }
}

/// How many bytes `integer_encoding` accepts for a varint of `bits` bits.
pub open spec fn varint_max_len(bits: nat) -> nat {
    (bits + 7) / 7
}

/// What reading a varint of the given width from `s` gives: the decoded value when it fits
/// in `max`, otherwise nothing.
pub open spec fn varint_read_fitting(s: Seq<u8>, bits: nat, max: nat) -> Option<nat> {
    match varint_read_value(s, varint_max_len(bits)) {
        Some(v) => if v <= max {
            Some(v)
        } else {
            None
        },
        None => None,
    }
}

/// What `integer_encoding`'s varint reader does when it reads from a reader that holds the
/// bytes `s` and then ends, accepting at most `varint_max_len(bits)` bytes and values up to
/// `max`: its result, and how many bytes it takes from the reader. A varint that is complete
/// gives its value (an `UnexpectedEof` error when the value does not fit) and takes its
/// bytes; one whose allowed bytes all have the high bit set is `InvalidData` after one byte
/// more; one cut short by the end of the reader is `UnexpectedEof` and takes all the bytes.
pub open spec fn varint_reader_outcome(s: Seq<u8>, bits: nat, max: nat) -> (
    Result<nat, ReadError>,
    nat,
) {
    let m = varint_max_len(bits);
    if exists|k: int| k < m && #[trigger] is_terminator(s, k) {
        let k = choose|k: int| k < m && #[trigger] is_terminator(s, k);
        (
            match varint_read_fitting(s, bits, max) {
                Some(v) => Ok(v),
                None => Err(ReadError::UnexpectedEof),
            },
            (k + 1) as nat,
        )
    } else if s.len() > m {
        (Err(ReadError::InvalidData), m + 1)
    } else {
        (Err(ReadError::UnexpectedEof), s.len())
    }
}

/// The varint reader's outcome for `u8`.
pub open spec fn varint_outcome_u8(s: Seq<u8>) -> (Result<nat, ReadError>, nat) {
    varint_reader_outcome(s, 8, 0xff)
}

/// `VarIntReader::read_varint::<u8>` of `integer_encoding`, reading from the front of `src`.
/// Claimed: the result and the number of bytes left unread are those of
/// `varint_reader_outcome` for at most two bytes and values up to 0xff; the
/// reader's `io::Error` is given by its kind.
#[verifier::external_body]
pub(crate) fn read_varint_u8(src: &[u8]) -> (res: (Result<u8, ReadError>, usize))
    ensures
        res.1 == src@.len() - varint_outcome_u8(src@).1,
        res.0 is Ok <==> varint_outcome_u8(src@).0 is Ok,
        res.0 is Ok ==> varint_outcome_u8(src@).0 == Ok::<nat, ReadError>(res.0->Ok_0 as nat),
        res.0 is Err ==> varint_outcome_u8(src@).0 == Err::<nat, ReadError>(res.0->Err_0),
{
    let mut r: &[u8] = src;
    let v = match r.read_varint::<u8>() {
        Ok(v) => Ok(v),
        Err(e) => match e.kind() {
            std::io::ErrorKind::InvalidData => Err(ReadError::InvalidData),
            _ => Err(ReadError::UnexpectedEof),
        },
    };
    (v, r.len())
}

/// The varint reader's outcome for `u16`.
pub open spec fn varint_outcome_u16(s: Seq<u8>) -> (Result<nat, ReadError>, nat) {
    varint_reader_outcome(s, 16, 0xffff)
}

/// `VarIntReader::read_varint::<u16>` of `integer_encoding`, reading from the front of `src`.
/// Claimed: the result and the number of bytes left unread are those of
/// `varint_reader_outcome` for at most three bytes and values up to 0xffff; the
/// reader's `io::Error` is given by its kind.
#[verifier::external_body]
pub(crate) fn read_varint_u16(src: &[u8]) -> (res: (Result<u16, ReadError>, usize))
    ensures
        res.1 == src@.len() - varint_outcome_u16(src@).1,
        res.0 is Ok <==> varint_outcome_u16(src@).0 is Ok,
        res.0 is Ok ==> varint_outcome_u16(src@).0 == Ok::<nat, ReadError>(res.0->Ok_0 as nat),
        res.0 is Err ==> varint_outcome_u16(src@).0 == Err::<nat, ReadError>(res.0->Err_0),
{
    let mut r: &[u8] = src;
    let v = match r.read_varint::<u16>() {
        Ok(v) => Ok(v),
        Err(e) => match e.kind() {
            std::io::ErrorKind::InvalidData => Err(ReadError::InvalidData),
            _ => Err(ReadError::UnexpectedEof),
        },
    };
    (v, r.len())
}

/// The varint reader's outcome for `u32`.
pub open spec fn varint_outcome_u32(s: Seq<u8>) -> (Result<nat, ReadError>, nat) {
    varint_reader_outcome(s, 32, 0xffff_ffff)
}

/// `VarIntReader::read_varint::<u32>` of `integer_encoding`, reading from the front of `src`.
/// Claimed: the result and the number of bytes left unread are those of
/// `varint_reader_outcome` for at most five bytes and values up to 0xffff_ffff; the
/// reader's `io::Error` is given by its kind.
#[verifier::external_body]
pub(crate) fn read_varint_u32(src: &[u8]) -> (res: (Result<u32, ReadError>, usize))
    ensures
        res.1 == src@.len() - varint_outcome_u32(src@).1,
        res.0 is Ok <==> varint_outcome_u32(src@).0 is Ok,
        res.0 is Ok ==> varint_outcome_u32(src@).0 == Ok::<nat, ReadError>(res.0->Ok_0 as nat),
        res.0 is Err ==> varint_outcome_u32(src@).0 == Err::<nat, ReadError>(res.0->Err_0),
{
    let mut r: &[u8] = src;
    let v = match r.read_varint::<u32>() {
        Ok(v) => Ok(v),
        Err(e) => match e.kind() {
            std::io::ErrorKind::InvalidData => Err(ReadError::InvalidData),
            _ => Err(ReadError::UnexpectedEof),
        },
    };
    (v, r.len())
}

/// The varint reader's outcome for `usize`.
pub open spec fn varint_outcome_usize(s: Seq<u8>) -> (Result<nat, ReadError>, nat) {
    varint_reader_outcome(s, usize::BITS as nat, usize::MAX as nat)
}

/// `VarIntReader::read_varint::<usize>` of `integer_encoding`, reading from the front of `src`.
/// Claimed: the result and the number of bytes left unread are those of
/// `varint_reader_outcome` for the bytes allowed for the width of `usize` and values up to `usize::MAX`; the
/// reader's `io::Error` is given by its kind.
#[verifier::external_body]
pub(crate) fn read_varint_usize(src: &[u8]) -> (res: (Result<usize, ReadError>, usize))
    ensures
        res.1 == src@.len() - varint_outcome_usize(src@).1,
        res.0 is Ok <==> varint_outcome_usize(src@).0 is Ok,
        res.0 is Ok ==> varint_outcome_usize(src@).0 == Ok::<nat, ReadError>(res.0->Ok_0 as nat),
        res.0 is Err ==> varint_outcome_usize(src@).0 == Err::<nat, ReadError>(res.0->Err_0),
{
    let mut r: &[u8] = src;
    let v = match r.read_varint::<usize>() {
        Ok(v) => Ok(v),
        Err(e) => match e.kind() {
            std::io::ErrorKind::InvalidData => Err(ReadError::InvalidData),
            _ => Err(ReadError::UnexpectedEof),
        },
    };
    (v, r.len())
}

/// `VarIntWriter::write_varint::<usize>` of `integer_encoding` into a `Vec<u8>`.
/// Claimed: it appends the base-128 encoding of `n` (low digit first, high bit set on every
/// byte but the last) and reports the number of bytes; writing into a `Vec` does not fail.
#[verifier::external_body]
pub(crate) fn write_varint_usize(out: &mut Vec<u8>, n: usize) -> (res: std::io::Result<usize>)
    ensures
        final(out)@ == old(out)@ + leb128_bytes(n as nat),
        res is Ok,
        res->Ok_0 == leb128_bytes(n as nat).len(),
{
    out.write_varint(n)
}

/// `VarIntWriter::write_varint::<u16>` of `integer_encoding` into a `Vec<u8>`.
/// Claimed: as for `usize`, the base-128 encoding of `n` is appended.
#[verifier::external_body]
pub(crate) fn write_varint_u16(out: &mut Vec<u8>, n: u16) -> (res: std::io::Result<usize>)
    ensures
        final(out)@ == old(out)@ + leb128_bytes(n as nat),
        res is Ok,
        res->Ok_0 == leb128_bytes(n as nat).len(),
{
    out.write_varint(n)
}

/// `WriteBytesExt::write_u8` of `byteorder` into a `Vec<u8>`.
/// Claimed: the byte is appended and the write succeeds.
#[verifier::external_body]
pub(crate) fn write_u8(out: &mut Vec<u8>, b: u8) -> (res: std::io::Result<()>)
    ensures
        final(out)@ == old(out)@.push(b),
        res is Ok,
{
    out.write_u8(b)
}

/// `ReadBytesExt::read_u8` of `byteorder`, reading from the front of `src`.
/// Claimed: the first byte, or nothing when `src` is empty.
#[verifier::external_body]
pub(crate) fn read_u8(src: &[u8]) -> (res: Option<u8>)
    ensures
        res == (if src@.len() > 0 {
            Some(src@[0])
        } else {
            None::<u8>
        }),
{
    let mut r: &[u8] = src;
    r.read_u8().ok()
}

/// `FixedIntReader::read_fixedint::<u16>` of `integer_encoding`, reading from the front of `src`.
/// Claimed: the first two bytes read little-endian, or nothing when fewer are there.
#[verifier::external_body]
pub(crate) fn read_fixed_u16(src: &[u8]) -> (res: Option<u16>)
    ensures
        res == (if src@.len() >= 2 {
            Some((src@[0] + 0x100 * src@[1]) as u16)
        } else {
            None::<u16>
        }),
{
    let mut r: &[u8] = src;
    r.read_fixedint::<u16>().ok()
}

/// The number written by `s` in base 256, least significant byte first.
pub open spec fn le_bytes_value(s: Seq<u8>) -> nat
    decreases s.len(),
{
    if s.len() == 0 {
        0
    } else {
        s[0] as nat + 0x100 * le_bytes_value(s.drop_first())
    }
}

/// `FixedIntReader::read_fixedint::<u32>` of `integer_encoding`, reading from the front of `src`.
/// Claimed: the first four bytes read little-endian, or nothing when fewer are there.
#[verifier::external_body]
pub(crate) fn read_fixed_u32(src: &[u8]) -> (res: Option<u32>)
    ensures
        res == (if src@.len() >= 4 {
            Some(le_bytes_value(src@.take(4)) as u32)
        } else {
            None::<u32>
        }),
{
    let mut r: &[u8] = src;
    r.read_fixedint::<u32>().ok()
}

/// `FixedIntReader::read_fixedint::<i64>` of `integer_encoding`, reading from the front of `src`.
/// Claimed: the first eight bytes read little-endian as a two's complement number, or
/// nothing when fewer are there.
#[verifier::external_body]
pub(crate) fn read_fixed_i64(src: &[u8]) -> (res: Option<i64>)
    ensures
        res == (if src@.len() >= 8 {
            Some(le_bytes_value(src@.take(8)) as i64)
        } else {
            None::<i64>
        }),
{
    let mut r: &[u8] = src;
    r.read_fixedint::<i64>().ok()
}

/// `String::from_utf8` of std.
/// Claimed: it succeeds exactly when the bytes are valid UTF-8, and then holds the characters
/// that they encode.
#[verifier::external_body]
pub(crate) fn string_from_utf8(bytes: Vec<u8>) -> (res: Result<String, std::string::FromUtf8Error>)
    ensures
        res is Ok <==> valid_utf8(bytes@),
        res matches Ok(s) ==> s@ == decode_utf8(bytes@),
{
    String::from_utf8(bytes)
}

/// `u` is a high surrogate, the first unit of a pair.
pub open spec fn is_high_surrogate(u: u16) -> bool {
    0xD800 <= u <= 0xDBFF
}

/// `u` is a low surrogate, the second unit of a pair.
pub open spec fn is_low_surrogate(u: u16) -> bool {
    0xDC00 <= u <= 0xDFFF
}

/// The code units are well-formed UTF-16: every unit outside the surrogate range stands
/// alone, and every high surrogate is followed by a low one.
pub open spec fn valid_utf16(u: Seq<u16>) -> bool
    decreases u.len(),
{
    if u.len() == 0 {
        true
    } else if !is_high_surrogate(u[0]) && !is_low_surrogate(u[0]) {
        valid_utf16(u.drop_first())
    } else if is_high_surrogate(u[0]) && u.len() >= 2 && is_low_surrogate(u[1]) {
        valid_utf16(u.skip(2))
    } else {
        false
    }
}

/// The characters that well-formed UTF-16 code units encode.
pub open spec fn decode_utf16(u: Seq<u16>) -> Seq<char>
    decreases u.len(),
{
    if u.len() == 0 {
        seq![]
    } else if !is_high_surrogate(u[0]) && !is_low_surrogate(u[0]) {
        seq![u[0] as char] + decode_utf16(u.drop_first())
    } else if u.len() >= 2 {
        seq![(0x10000 + (u[0] - 0xD800) * 0x400 + (u[1] - 0xDC00)) as char] + decode_utf16(
            u.skip(2),
        )
    } else {
        seq![]
    }
}

/// `String::from_utf16` of std.
/// Claimed: it succeeds exactly when the code units are well-formed UTF-16, and then holds
/// the characters that they encode.
#[verifier::external_body]
pub(crate) fn string_from_utf16(v: &[u16]) -> (res: Result<String, std::string::FromUtf16Error>)
    ensures
        res is Ok <==> valid_utf16(v@),
        res matches Ok(s) ==> s@ == decode_utf16(v@),
{
    String::from_utf16(v)
}

/// The `u16` that two bytes in the machine's byte order stand for.
pub open spec fn ne_u16(b0: u8, b1: u8) -> u16 {
    match endianness() {
        Endian::Little => (b0 + 0x100 * b1) as u16,
        Endian::Big => (0x100 * b0 + b1) as u16,
    }
}

/// `u16::from_ne_bytes` of std, on the array `[b0, b1]`.
/// Claimed: the bytes read in the byte order of the machine.
#[verifier::external_body]
pub(crate) fn u16_from_ne_bytes(b0: u8, b1: u8) -> (res: u16)
    ensures
        res == ne_u16(b0, b1),
{
    u16::from_ne_bytes([b0, b1])
}

} // verus!
