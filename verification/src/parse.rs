//! Reading packet fields from the bytes that a stream has delivered so far.
//!
//! Every reader looks at `s`, the bytes received and not yet consumed, and `eof`, whether the
//! stream has ended after them. It answers `NeedMore` when the field runs past `s` and the
//! stream may still deliver more, and otherwise what the field reads as and how many bytes
//! it consumes, as a blocking read of the whole stream would.
use vstd::prelude::*;
use vstd::slice::{slice_subrange, slice_to_vec};
use vstd::utf8::{decode_utf8, valid_utf8};
use crate::errors::{MinecraftStringError, ReadError};
use crate::external::{
    decode_utf16, le_bytes_value, ne_u16, read_fixed_i64, read_fixed_u16, read_fixed_u32,
    read_u8, varint_reader_outcome, read_varint_u16, read_varint_u32, read_varint_u8, read_varint_usize,
    string_from_utf16, string_from_utf8, u16_from_ne_bytes, valid_utf16, varint_max_len,
    varint_read_fitting,
};
use crate::varint::{
    is_terminator, leb128_bytes, lemma_leb128_decodes, lemma_leb128_last_small, lemma_leb128_len,
    lemma_leb128_prefix, lemma_pow128_widths, lemma_terminator_unique,
};
use crate::external::varint_read_value;

verus! {

/// The outcome of reading from the received bytes.
pub enum Parsed<T> {
    /// The read goes past the received bytes; nothing is consumed.
    NeedMore,
    /// The read's result and the number of bytes it consumes.
    Done(T, usize),
}

/// The outcome of a read in the model: as `Parsed`, with the count as a natural number.
pub enum Step<V> {
    NeedMore,
    Done(V, nat),
}

/// A finished step consumes no more than `len` bytes.
pub open spec fn within<V>(p: Step<V>, len: nat) -> bool {
    p matches Step::Done(_, n) ==> n <= len
}

/// The step `p`, taken after `c` bytes were consumed.
pub open spec fn after<V>(c: nat, p: Step<V>) -> Step<V> {
    match p {
        Step::NeedMore => Step::NeedMore,
        Step::Done(v, n) => Step::Done(v, c + n),
    }
}

/// The outcome `p`, taken after `c` bytes were consumed.
pub fn shifted<T>(c: usize, p: Parsed<T>) -> (r: Parsed<T>)
    requires
        p matches Parsed::Done(_, n) ==> c + n <= usize::MAX,
    ensures
        r == (match p {
            Parsed::NeedMore => Parsed::NeedMore,
            Parsed::Done(x, n) => Parsed::Done(x, (c + n) as usize),
        }),
{
    match p {
        Parsed::NeedMore => Parsed::NeedMore,
        Parsed::Done(x, n) => Parsed::Done(x, c + n),
    }
}

/// The model of an executable outcome, its result mapped by `f`.
pub open spec fn map_step<T, V>(p: Parsed<T>, f: spec_fn(T) -> V) -> Step<V> {
    match p {
        Parsed::NeedMore => Step::NeedMore,
        Parsed::Done(x, n) => Step::Done(f(x), n as nat),
    }
}

/// The model of an executable outcome whose result needs no mapping.
pub open spec fn as_step<T>(p: Parsed<T>) -> Step<T> {
    match p {
        Parsed::NeedMore => Step::NeedMore,
        Parsed::Done(x, n) => Step::Done(x, n as nat),
    }
}

/// Reading `n` bytes, as `take(n)` on a stream: fewer when the stream ends first.
pub open spec fn spec_take(s: Seq<u8>, eof: bool, n: nat) -> Step<Seq<u8>> {
    if n <= s.len() {
        Step::Done(s.take(n as int), n)
    } else if eof {
        Step::Done(s, s.len())
    } else {
        Step::NeedMore
    }
}

/// Reading one byte.
pub open spec fn spec_read_u8(s: Seq<u8>, eof: bool) -> Step<Result<u8, ReadError>> {
    if s.len() >= 1 {
        Step::Done(Ok(s[0]), 1)
    } else if eof {
        Step::Done(Err(ReadError::UnexpectedEof), s.len())
    } else {
        Step::NeedMore
    }
}

/// Reading a 16-bit integer stored little-endian.
pub open spec fn spec_read_u16(s: Seq<u8>, eof: bool) -> Step<Result<u16, ReadError>> {
    if s.len() >= 2 {
        Step::Done(Ok((s[0] + 0x100 * s[1]) as u16), 2)
    } else if eof {
        Step::Done(Err(ReadError::UnexpectedEof), s.len())
    } else {
        Step::NeedMore
    }
}

/// Reading a 32-bit integer stored little-endian.
pub open spec fn spec_read_u32(s: Seq<u8>, eof: bool) -> Step<Result<u32, ReadError>> {
    if s.len() >= 4 {
        Step::Done(Ok(le_bytes_value(s.take(4)) as u32), 4)
    } else if eof {
        Step::Done(Err(ReadError::UnexpectedEof), s.len())
    } else {
        Step::NeedMore
    }
}

/// Reading a 64-bit two's complement integer stored little-endian.
pub open spec fn spec_read_i64(s: Seq<u8>, eof: bool) -> Step<Result<i64, ReadError>> {
    if s.len() >= 8 {
        Step::Done(Ok(le_bytes_value(s.take(8)) as i64), 8)
    } else if eof {
        Step::Done(Err(ReadError::UnexpectedEof), s.len())
    } else {
        Step::NeedMore
    }
}

/// Reading a varint of `bits` bits whose value must not exceed `max`: complete at the first
/// byte with a clear high bit among the allowed ones; an error when the allowed bytes all
/// have it set, when the value does not fit, or when the stream ends first.
pub open spec fn spec_varint(s: Seq<u8>, eof: bool, bits: nat, max: nat) -> Step<
    Result<nat, ReadError>,
> {
    let m = varint_max_len(bits);
    if exists|k: int| k < m && #[trigger] is_terminator(s, k) {
        let k = choose|k: int| k < m && #[trigger] is_terminator(s, k);
        match varint_read_fitting(s, bits, max) {
            Some(v) => Step::Done(Ok(v), (k + 1) as nat),
            None => Step::Done(Err(ReadError::UnexpectedEof), (k + 1) as nat),
        }
    } else if s.len() > m {
        Step::Done(Err(ReadError::InvalidData), m + 1)
    } else if eof {
        Step::Done(Err(ReadError::UnexpectedEof), s.len())
    } else {
        Step::NeedMore
    }
}

/// The model of a varint outcome of an executable integer type.
pub open spec fn varint_step<T>(p: Parsed<Result<T, ReadError>>, f: spec_fn(T) -> nat) -> Step<
    Result<nat, ReadError>,
> {
    match p {
        Parsed::NeedMore => Step::NeedMore,
        Parsed::Done(Ok(v), n) => Step::Done(Ok(f(v)), n as nat),
        Parsed::Done(Err(e), n) => Step::Done(Err(e), n as nat),
    }
}

/// The varint reader ran into the end of the received bytes: it took them all, its last
/// byte still had the high bit set, and it reports the end of its input.
pub open spec fn varint_ran_out<T>(s: Seq<u8>, v: Result<T, ReadError>, rest_len: nat) -> bool {
    &&& v == Err::<T, ReadError>(ReadError::UnexpectedEof)
    &&& rest_len == 0
    &&& (s.len() == 0 || s.last() >= 0x80)
}

/// Turns what the varint reader did on the received bytes into the outcome of the read: it
/// needs more bytes when it ran into their end before the stream ended.
fn settle_varint<T>(s: &[u8], eof: bool, v: Result<T, ReadError>, rest_len: usize) -> (r: Parsed<
    Result<T, ReadError>,
>)
    requires
        rest_len <= s@.len(),
    ensures
        r == (if varint_ran_out(s@, v, rest_len as nat) && !eof {
            Parsed::<Result<T, ReadError>>::NeedMore
        } else {
            Parsed::Done(v, (s@.len() - rest_len) as usize)
        }),
{
    let ran_out = match &v {
        Err(ReadError::UnexpectedEof) => rest_len == 0 && (s.len() == 0 || s[s.len() - 1] >= 0x80),
        _ => false,
    };
    if ran_out && !eof {
        Parsed::NeedMore
    } else {
        Parsed::Done(v, s.len() - rest_len)
    }
}

/// The reader's outcome on the received bytes gives the outcome of the read.
proof fn lemma_varint_outcome(s: Seq<u8>, eof: bool, bits: nat, max: nat)
    ensures
        ({
            let (v, n) = varint_reader_outcome(s, bits, max);
            spec_varint(s, eof, bits, max) == if varint_ran_out(s, v, (s.len() - n) as nat)
                && !eof {
                Step::NeedMore
            } else {
                Step::Done(v, n)
            }
        }),
{
    let m = varint_max_len(bits);
    if exists|k: int| k < m && #[trigger] is_terminator(s, k) {
        let k = choose|k: int| k < m && #[trigger] is_terminator(s, k);
        assert(s[k] < 0x80);
    } else if s.len() <= m {
        assert forall|j: int| 0 <= j < s.len() implies s[j] >= 0x80 by {
            lemma_no_terminator_all_high(s, m, j);
        }
    }
}

/// Without a terminator among the first `m` bytes, each of them has its high bit set.
proof fn lemma_no_terminator_all_high(s: Seq<u8>, m: nat, j: int)
    requires
        0 <= j < s.len(),
        j < m,
        forall|k: int| k < m ==> !#[trigger] is_terminator(s, k),
    ensures
        s[j] >= 0x80,
    decreases j,
{
    if j > 0 {
        lemma_no_terminator_all_high(s, m, j - 1);
    }
    assert forall|l: int| 0 <= l < j implies s[l] >= 0x80 by {
        if l < j - 1 {
            lemma_no_terminator_all_high(s, m, l);
        }
    }
    if s[j] < 0x80 {
        assert(is_terminator(s, j));
    }
}

/// Reads a varint that must fit in a `u8`.
pub fn parse_varint_u8(s: &[u8], eof: bool) -> (r: Parsed<Result<u8, ReadError>>)
    ensures
        varint_step(r, |v: u8| v as nat) == spec_varint(s@, eof, 8, 0xff),
{
    let (v, rest_len) = read_varint_u8(s);
    proof {
        lemma_varint_outcome(s@, eof, 8, 0xff);
    }
    settle_varint(s, eof, v, rest_len)
}

/// Reads a varint that must fit in a `u16`.
pub fn parse_varint_u16(s: &[u8], eof: bool) -> (r: Parsed<Result<u16, ReadError>>)
    ensures
        varint_step(r, |v: u16| v as nat) == spec_varint(s@, eof, 16, 0xffff),
{
    let (v, rest_len) = read_varint_u16(s);
    proof {
        lemma_varint_outcome(s@, eof, 16, 0xffff);
    }
    settle_varint(s, eof, v, rest_len)
}

/// Reads a varint that must fit in a `u32`.
pub fn parse_varint_u32(s: &[u8], eof: bool) -> (r: Parsed<Result<u32, ReadError>>)
    ensures
        varint_step(r, |v: u32| v as nat) == spec_varint(s@, eof, 32, 0xffff_ffff),
{
    let (v, rest_len) = read_varint_u32(s);
    proof {
        lemma_varint_outcome(s@, eof, 32, 0xffff_ffff);
    }
    settle_varint(s, eof, v, rest_len)
}

/// Reads a varint that must fit in a `usize`.
pub fn parse_varint_usize(s: &[u8], eof: bool) -> (r: Parsed<Result<usize, ReadError>>)
    ensures
        varint_step(r, |v: usize| v as nat) == spec_varint(
            s@,
            eof,
            usize::BITS as nat,
            usize::MAX as nat,
        ),
{
    let (v, rest_len) = read_varint_usize(s);
    proof {
        lemma_varint_outcome(s@, eof, usize::BITS as nat, usize::MAX as nat);
    }
    settle_varint(s, eof, v, rest_len)
}

/// Reads one byte.
pub fn read_uchar(s: &[u8], eof: bool) -> (r: Parsed<Result<u8, ReadError>>)
    ensures
        as_step(r) == spec_read_u8(s@, eof),
{
    match read_u8(s) {
        Some(b) => Parsed::Done(Ok(b), 1),
        None => if eof {
            Parsed::Done(Err(ReadError::UnexpectedEof), s.len())
        } else {
            Parsed::NeedMore
        },
    }
}

/// Reads a 16-bit integer stored little-endian.
pub fn read_ushort(s: &[u8], eof: bool) -> (r: Parsed<Result<u16, ReadError>>)
    ensures
        as_step(r) == spec_read_u16(s@, eof),
{
    match read_fixed_u16(s) {
        Some(v) => Parsed::Done(Ok(v), 2),
        None => if eof {
            Parsed::Done(Err(ReadError::UnexpectedEof), s.len())
        } else {
            Parsed::NeedMore
        },
    }
}

/// Reads a 32-bit integer stored little-endian.
pub fn read_uint(s: &[u8], eof: bool) -> (r: Parsed<Result<u32, ReadError>>)
    ensures
        as_step(r) == spec_read_u32(s@, eof),
{
    match read_fixed_u32(s) {
        Some(v) => Parsed::Done(Ok(v), 4),
        None => if eof {
            Parsed::Done(Err(ReadError::UnexpectedEof), s.len())
        } else {
            Parsed::NeedMore
        },
    }
}

/// Reads a 64-bit two's complement integer stored little-endian.
pub fn read_long(s: &[u8], eof: bool) -> (r: Parsed<Result<i64, ReadError>>)
    ensures
        as_step(r) == spec_read_i64(s@, eof),
{
    match read_fixed_i64(s) {
        Some(v) => Parsed::Done(Ok(v), 8),
        None => if eof {
            Parsed::Done(Err(ReadError::UnexpectedEof), s.len())
        } else {
            Parsed::NeedMore
        },
    }
}

/// Reads `n` bytes, or all that are left when the stream ends first.
pub fn parse_take(s: &[u8], eof: bool, n: usize) -> (r: Parsed<Vec<u8>>)
    ensures
        map_step(r, |v: Vec<u8>| v@) == spec_take(s@, eof, n as nat),
{
    if n <= s.len() {
        let v = slice_to_vec(slice_subrange(s, 0, n));
        Parsed::Done(v, n)
    } else if eof {
        let v = slice_to_vec(s);
        Parsed::Done(v, s.len())
    } else {
        Parsed::NeedMore
    }
}

/// What reading a string field gives, in the model.
pub enum StringRead {
    Text(Seq<char>),
    Utf8Invalid,
    Utf16Invalid,
    Io(ReadError),
}

/// The model of the result of reading a string.
pub open spec fn string_read_view(r: Result<String, MinecraftStringError>) -> StringRead {
    match r {
        Ok(s) => StringRead::Text(s@),
        Err(MinecraftStringError::FromUtf8Error(_)) => StringRead::Utf8Invalid,
        Err(MinecraftStringError::FromUtf16Error(_)) => StringRead::Utf16Invalid,
        Err(MinecraftStringError::IoError(e)) => StringRead::Io(e),
    }
}

/// Reading a UTF-8 string field: its byte length as a varint, then at most `max` bytes of
/// it, which must be valid UTF-8.
pub open spec fn spec_utf_string(s: Seq<u8>, eof: bool, max: nat) -> Step<StringRead> {
    match spec_varint(s, eof, usize::BITS as nat, usize::MAX as nat) {
        Step::NeedMore => Step::NeedMore,
        Step::Done(Err(e), c) => Step::Done(StringRead::Io(e), c),
        Step::Done(Ok(len), c) => {
            let n = if max < len {
                max
            } else {
                len
            };
            match spec_take(s.skip(c as int), eof, n) {
                Step::NeedMore => Step::NeedMore,
                Step::Done(b, c2) => Step::Done(
                    if valid_utf8(b) {
                        StringRead::Text(decode_utf8(b))
                    } else {
                        StringRead::Utf8Invalid
                    },
                    c + c2,
                ),
            }
        },
    }
}

/// Reads a UTF-8 string field of at most `max_bytes` bytes.
pub fn read_utf_string(s: &[u8], eof: bool, max_bytes: usize) -> (r: Parsed<
    Result<String, MinecraftStringError>,
>)
    ensures
        map_step(r, |x: Result<String, MinecraftStringError>| string_read_view(x))
            == spec_utf_string(s@, eof, max_bytes as nat),
{
    match parse_varint_usize(s, eof) {
        Parsed::NeedMore => Parsed::NeedMore,
        Parsed::Done(Err(e), c) => Parsed::Done(Err(MinecraftStringError::from(e)), c),
        Parsed::Done(Ok(len), c) => {
            let str_len_bytes = if max_bytes < len {
                max_bytes
            } else {
                len
            };
            let rest = slice_subrange(s, c, s.len());
            assert(rest@ =~= s@.skip(c as int));
            match parse_take(rest, eof, str_len_bytes) {
                Parsed::NeedMore => Parsed::NeedMore,
                Parsed::Done(bytes, c2) => {
                    let text = match string_from_utf8(bytes) {
                        Ok(t) => Ok(t),
                        Err(e) => Err(MinecraftStringError::from(e)),
                    };
                    Parsed::Done(text, c + c2)
                },
            }
        },
    }
}

/// The 16-bit units that the bytes stand for, two at a time in the order
/// second byte, first byte, each pair read in the machine's byte order; an odd last byte is
/// left out.
pub open spec fn hwords(b: Seq<u8>) -> Seq<u16> {
    Seq::new(b.len() / 2, |i: int| ne_u16(b[2 * i + 1], b[2 * i]))
}

/// Reading `len` bytes (fewer when the stream ends) as a UTF-16 string.
pub open spec fn spec_utf16_string(s: Seq<u8>, eof: bool, len: nat) -> Step<StringRead> {
    match spec_take(s, eof, len) {
        Step::NeedMore => Step::NeedMore,
        Step::Done(b, c) => Step::Done(
            if valid_utf16(hwords(b)) {
                StringRead::Text(decode_utf16(hwords(b)))
            } else {
                StringRead::Utf16Invalid
            },
            c,
        ),
    }
}

/// Reads `len_bytes` bytes as a UTF-16 string.
pub fn read_utf16_string(s: &[u8], eof: bool, len_bytes: usize) -> (r: Parsed<
    Result<String, MinecraftStringError>,
>)
    ensures
        map_step(r, |x: Result<String, MinecraftStringError>| string_read_view(x))
            == spec_utf16_string(s@, eof, len_bytes as nat),
{
    match parse_take(s, eof, len_bytes) {
        Parsed::NeedMore => Parsed::NeedMore,
        Parsed::Done(bytes, c) => {
            let mut words: Vec<u16> = Vec::new();
            let mut i: usize = 0;
            while i + 1 < bytes.len()
                invariant
                    i <= bytes@.len(),
                    i % 2 == 0,
                    words@.len() == i / 2,
                    forall|j: int| 0 <= j < words@.len() ==> words@[j] == hwords(bytes@)[j],
                decreases bytes@.len() - i,
            {
                let w = u16_from_ne_bytes(bytes[i + 1], bytes[i]);
                words.push(w);
                i = i + 2;
            }
            assert(words@.len() == bytes@.len() / 2);
            assert(words@ =~= hwords(bytes@));
            let text = match string_from_utf16(words.as_slice()) {
                Ok(t) => Ok(t),
                Err(e) => Err(MinecraftStringError::from(e)),
            };
            Parsed::Done(text, c)
        },
    }
}

/// Reading a varint consumes no more than what was received.
pub proof fn lemma_varint_within(s: Seq<u8>, eof: bool, bits: nat, max: nat)
    ensures
        within(spec_varint(s, eof, bits, max), s.len()),
{
}

/// Reading bytes consumes no more than what was received.
pub proof fn lemma_take_within(s: Seq<u8>, eof: bool, n: nat)
    ensures
        within(spec_take(s, eof, n), s.len()),
{
}

/// Reading a UTF-8 string field consumes no more than what was received.
pub proof fn lemma_utf_string_within(s: Seq<u8>, eof: bool, max: nat)
    ensures
        within(spec_utf_string(s, eof, max), s.len()),
{
    lemma_varint_within(s, eof, usize::BITS as nat, usize::MAX as nat);
}

/// Reading a UTF-16 string consumes no more than what was received.
pub proof fn lemma_utf16_string_within(s: Seq<u8>, eof: bool, len: nat)
    ensures
        within(spec_utf16_string(s, eof, len), s.len()),
{
}

/// Bytes received after a complete varint do not change what it reads.
proof fn lemma_varint_value_extend(s: Seq<u8>, t: Seq<u8>, m: nat, k: int)
    requires
        k < m,
        is_terminator(s, k),
    ensures
        is_terminator(s + t, k),
        varint_read_value(s + t, m) == varint_read_value(s, m),
{
    assert(is_terminator(s + t, k));
    let k1 = choose|j: int| j < m && #[trigger] is_terminator(s, j);
    let k2 = choose|j: int| j < m && #[trigger] is_terminator(s + t, j);
    lemma_terminator_unique(s, k, k1);
    lemma_terminator_unique(s + t, k, k2);
    assert((s + t).take(k + 1) =~= s.take(k + 1));
}

/// A varint read that is complete on the received bytes reads the same whatever follows
/// and whether or not the stream has ended.
pub proof fn lemma_varint_extend(s: Seq<u8>, t: Seq<u8>, eof: bool, bits: nat, max: nat)
    requires
        spec_varint(s, false, bits, max) is Done,
    ensures
        spec_varint(s + t, eof, bits, max) == spec_varint(s, false, bits, max),
{
    let m = varint_max_len(bits);
    if exists|k: int| k < m && #[trigger] is_terminator(s, k) {
        let k = choose|k: int| k < m && #[trigger] is_terminator(s, k);
        lemma_varint_value_extend(s, t, m, k);
        let k2 = choose|j: int| j < m && #[trigger] is_terminator(s + t, j);
        lemma_terminator_unique(s + t, k, k2);
    } else {
        assert forall|k: int| k < m implies !#[trigger] is_terminator(s + t, k) by {
            if is_terminator(s + t, k) {
                assert(0 <= k < s.len());
                assert forall|j: int| 0 <= j < k implies s[j] >= 0x80 by {
                    assert(s[j] == (s + t)[j]);
                }
                assert(s[k] == (s + t)[k]);
                assert(is_terminator(s, k));
            }
        }
    }
}

/// Reading bytes that are all received gives the same whatever follows.
pub proof fn lemma_take_extend(s: Seq<u8>, t: Seq<u8>, eof: bool, n: nat)
    requires
        spec_take(s, false, n) is Done,
    ensures
        spec_take(s + t, eof, n) == spec_take(s, false, n),
{
    assert((s + t).take(n as int) =~= s.take(n as int));
}

/// Fixed-size reads that are complete on the received bytes give the same whatever follows.
pub proof fn lemma_fixed_extend(s: Seq<u8>, t: Seq<u8>, eof: bool)
    ensures
        spec_read_u8(s, false) is Done ==> spec_read_u8(s + t, eof) == spec_read_u8(s, false),
        spec_read_u16(s, false) is Done ==> spec_read_u16(s + t, eof) == spec_read_u16(s, false),
        spec_read_u32(s, false) is Done ==> spec_read_u32(s + t, eof) == spec_read_u32(s, false),
        spec_read_i64(s, false) is Done ==> spec_read_i64(s + t, eof) == spec_read_i64(s, false),
{
    if s.len() >= 4 {
        assert((s + t).take(4) =~= s.take(4));
    }
    if s.len() >= 8 {
        assert((s + t).take(8) =~= s.take(8));
    }
}

/// Skipping a prefix of the received bytes commutes with receiving more.
pub proof fn lemma_skip_extend(s: Seq<u8>, t: Seq<u8>, c: int)
    requires
        0 <= c <= s.len(),
    ensures
        (s + t).skip(c) == s.skip(c) + t,
{
    assert((s + t).skip(c) =~= s.skip(c) + t);
}

/// A UTF-8 string read that is complete on the received bytes gives the same whatever
/// follows.
pub proof fn lemma_utf_string_extend(s: Seq<u8>, t: Seq<u8>, eof: bool, max: nat)
    requires
        spec_utf_string(s, false, max) is Done,
    ensures
        spec_utf_string(s + t, eof, max) == spec_utf_string(s, false, max),
{
    lemma_varint_extend(s, t, eof, usize::BITS as nat, usize::MAX as nat);
    lemma_varint_within(s, false, usize::BITS as nat, usize::MAX as nat);
    if let Step::Done(Ok(len), c) = spec_varint(s, false, usize::BITS as nat, usize::MAX as nat) {
        lemma_skip_extend(s, t, c as int);
        let n = if max < len {
            max
        } else {
            len
        };
        lemma_take_extend(s.skip(c as int), t, eof, n);
    }
}

/// A UTF-16 string read that is complete on the received bytes gives the same whatever
/// follows.
pub proof fn lemma_utf16_string_extend(s: Seq<u8>, t: Seq<u8>, eof: bool, len: nat)
    requires
        spec_utf16_string(s, false, len) is Done,
    ensures
        spec_utf16_string(s + t, eof, len) == spec_utf16_string(s, false, len),
{
    lemma_take_extend(s, t, eof, len);
}

/// Once the stream has ended, no read waits for more bytes.
pub proof fn lemma_primitives_total(s: Seq<u8>, bits: nat, max: nat, n: nat)
    ensures
        spec_varint(s, true, bits, max) is Done,
        spec_take(s, true, n) is Done,
        spec_read_u8(s, true) is Done,
        spec_read_u16(s, true) is Done,
        spec_read_u32(s, true) is Done,
        spec_read_i64(s, true) is Done,
        spec_utf_string(s, true, n) is Done,
        spec_utf16_string(s, true, n) is Done,
{
}

/// A varint as `integer_encoding` writes it reads back as the same number, whatever follows
/// and whether or not the stream has ended, when the number fits the type read.
pub proof fn lemma_varint_roundtrip(n: nat, t: Seq<u8>, eof: bool, bits: nat, max: nat)
    requires
        n <= max,
        (bits == 8 && max == 0xff) || (bits == 16 && max == 0xffff) || (bits == 32 && max
            == 0xffff_ffff) || (bits == usize::BITS && max == usize::MAX),
    ensures
        spec_varint(leb128_bytes(n) + t, eof, bits, max) == Step::Done(
            Ok::<nat, ReadError>(n),
            leb128_bytes(n).len(),
        ),
{
    let b = leb128_bytes(n);
    let s = b + t;
    let m = varint_max_len(bits);
    lemma_pow128_widths();
    lemma_leb128_prefix(n, t);
    lemma_leb128_decodes(n);
    if bits == 8 {
        lemma_leb128_len(n, 2);
    } else if bits == 16 {
        lemma_leb128_len(n, 3);
    } else if bits == 32 {
        lemma_leb128_len(n, 5);
    } else if usize::BITS == 32 {
        lemma_leb128_len(n, 5);
    } else {
        lemma_leb128_len(n, 10);
        if b.len() == 10 {
            lemma_leb128_last_small(n, 9);
        }
    }
    let k = b.len() - 1;
    assert(k < m && is_terminator(s, k));
    let k2 = choose|j: int| j < m && #[trigger] is_terminator(s, j);
    lemma_terminator_unique(s, k, k2);
    assert(s[k] == b[k]);
    assert(varint_read_value(s, m) == Some(n));
}

} // verus!
