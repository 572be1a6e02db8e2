use vstd::prelude::*;

verus! {

/// `k` is the index of the first byte of `s` whose high bit is clear.
pub open spec fn is_terminator(s: Seq<u8>, k: int) -> bool {
    &&& 0 <= k < s.len()
    &&& s[k] < 0x80
    &&& forall|j: int| 0 <= j < k ==> s[j] >= 0x80
}

/// The number written by base-128 digits (the low seven bits of each byte),
/// most significant digit first.
pub open spec fn groups_be(s: Seq<u8>) -> nat
    decreases s.len(),
{
    if s.len() == 0 {
        0
    } else {
        groups_be(s.drop_last()) * 128 + (s.last() % 128) as nat
    }
}

/// The number written by base-128 digits (the low seven bits of each byte),
/// least significant digit first.
pub open spec fn groups_le(s: Seq<u8>) -> nat
    decreases s.len(),
{
    if s.len() == 0 {
        0
    } else {
        (s[0] % 128) as nat + 128 * groups_le(s.drop_first())
    }
}

/// The bytes that `integer_encoding` writes for `n`: base-128 digits, least significant
/// first, with the high bit set on every byte but the last.
pub open spec fn leb128_bytes(n: nat) -> Seq<u8>
    decreases n,
{
    if n < 128 {
        seq![n as u8]
    } else {
        seq![(n % 128 + 128) as u8] + leb128_bytes(n / 128)
    }
}

/// 128 to the power `n`.
pub open spec fn pow128(n: nat) -> nat
    decreases n,
{
    if n == 0 {
        1
    } else {
        128 * pow128((n - 1) as nat)
    }
}

/// What `try_read_varint` gives for `s`: when the first byte with a clear high bit is among
/// the first six bytes, the digits up to and including it, read most significant first;
/// otherwise nothing.
pub open spec fn spec_try_read_varint(s: Seq<u8>) -> Option<u64> {
    if exists|k: int| k <= 5 && #[trigger] is_terminator(s, k) {
        let k = choose|k: int| k <= 5 && #[trigger] is_terminator(s, k);
        Some(groups_be(s.take(k + 1)) as u64)
    } else {
        None
    }
}

/// A sequence has at most one terminator.
pub proof fn lemma_terminator_unique(s: Seq<u8>, k1: int, k2: int)
    requires
        is_terminator(s, k1),
        is_terminator(s, k2),
    ensures
        k1 == k2,
{
    if k1 < k2 {
        assert(s[k1] >= 0x80);
    } else if k2 < k1 {
        assert(s[k2] >= 0x80);
    }
}

proof fn lemma_groups_be_bound(s: Seq<u8>)
    ensures
        groups_be(s) < pow128(s.len()),
    decreases s.len(),
{
    if s.len() > 0 {
        lemma_groups_be_bound(s.drop_last());
    }
}

proof fn lemma_pow128_small(n: nat)
    requires
        n <= 6,
    ensures
        pow128(n) <= 0x400_0000_0000,
        n <= 5 ==> pow128(n) <= 0x8_0000_0000,
{
    reveal_with_fuel(pow128, 7);
}

/// Reads a varint from the front of `src`: base-128 digits, most significant first,
/// ending at the first byte whose high bit is clear; at most six bytes are looked at.
pub fn try_read_varint(src: &[u8]) -> (res: Option<u64>)
    ensures
        res == spec_try_read_varint(src@),
{
    let mut out: u64 = 0;
    let mut parts: usize = 0;
    let msb: u8 = 0x80;
    let dmsb: u8 = 0x7f;
    let max_parts: usize = 5;
    while parts < src.len()
        invariant
            parts <= src.len(),
            parts <= 6,
            forall|j: int| 0 <= j < parts ==> src@[j] >= 0x80,
            out == groups_be(src@.take(parts as int)),
            out < pow128(parts as nat),
            msb == 0x80,
            dmsb == 0x7f,
            max_parts == 5,
        decreases src.len() - parts,
    {
        if parts > max_parts {
            proof {
                assert forall|k: int| k <= 5 implies !#[trigger] is_terminator(src@, k) by {
                    if 0 <= k && k < src@.len() {
                        assert(src@[k] >= 0x80);
                    }
                }
            }
            return None;
        }
        let b = src[parts];
        proof {
            lemma_pow128_small(parts as nat);
            assert(out < 0x8_0000_0000);
            assert(src@.take(parts + 1).drop_last() =~= src@.take(parts as int));
            assert(out < 0x8_0000_0000 ==> (out << 7) | ((b & dmsb) as u64) == out * 128 + (b
                % 128) as u64) by (bit_vector)
                requires
                    dmsb == 0x7f,
            ;
            assert(b & msb == 0 <==> b < 0x80) by (bit_vector)
                requires
                    msb == 0x80,
            ;
        }
        out = (out << 7) | ((b & dmsb) as u64);
        parts = parts + 1;
        if b & msb == 0 {
            proof {
                let k = (parts - 1) as int;
                assert(is_terminator(src@, k));
                let c = choose|c: int| c <= 5 && #[trigger] is_terminator(src@, c);
                lemma_terminator_unique(src@, k, c);
            }
            return Some(out);
        }
    }
    proof {
        assert forall|k: int| k <= 5 implies !#[trigger] is_terminator(src@, k) by {
            if 0 <= k < src@.len() {
                assert(src@[k] >= 0x80);
            }
        }
    }
    None
}

/// Bytes that follow a complete varint do not change what `try_read_varint` reads.
pub proof fn lemma_try_read_varint_extend(s: Seq<u8>, t: Seq<u8>)
    requires
        spec_try_read_varint(s) is Some,
    ensures
        spec_try_read_varint(s + t) == spec_try_read_varint(s),
{
    let k = choose|k: int| k <= 5 && #[trigger] is_terminator(s, k);
    assert(is_terminator(s + t, k));
    let c = choose|c: int| c <= 5 && #[trigger] is_terminator(s + t, c);
    lemma_terminator_unique(s + t, k, c);
    assert((s + t).take(k + 1) =~= s.take(k + 1));
}

/// `try_read_varint` looks at no more than the first six bytes.
pub proof fn lemma_try_read_varint_six_bytes(s: Seq<u8>)
    requires
        s.len() >= 6,
    ensures
        spec_try_read_varint(s) == spec_try_read_varint(s.take(6)),
{
    let p = s.take(6);
    if exists|k: int| k <= 5 && #[trigger] is_terminator(s, k) {
        let k = choose|k: int| k <= 5 && #[trigger] is_terminator(s, k);
        assert(is_terminator(p, k));
        let c = choose|c: int| c <= 5 && #[trigger] is_terminator(p, c);
        lemma_terminator_unique(p, k, c);
        assert(p.take(k + 1) =~= s.take(k + 1));
    } else {
        assert forall|k: int| k <= 5 implies !#[trigger] is_terminator(p, k) by {
            if is_terminator(p, k) {
                assert forall|j: int| 0 <= j < k implies s[j] >= 0x80 by {
                    assert(p[j] == s[j]);
                }
                assert(p[k] == s[k]);
                assert(is_terminator(s, k));
            }
        }
    }
}

/// A byte below 0x80 is a complete varint whose value is the byte itself.
pub proof fn lemma_try_read_varint_one_byte(b: u8, t: Seq<u8>)
    requires
        b < 0x80,
    ensures
        spec_try_read_varint(seq![b] + t) == Some(b as u64),
{
    let s = seq![b] + t;
    assert(is_terminator(s, 0));
    let c = choose|c: int| c <= 5 && #[trigger] is_terminator(s, c);
    lemma_terminator_unique(s, 0, c);
    assert(s.take(1).drop_last() =~= Seq::<u8>::empty());
    assert(s.take(1).last() == b);
    assert(groups_be(s.take(1)) == groups_be(s.take(1).drop_last()) * 128 + (b % 128) as nat);
}

/// What `try_read_varint` reads is below 2^42 (six digits of seven bits).
pub proof fn lemma_try_read_varint_bound(s: Seq<u8>)
    ensures
        spec_try_read_varint(s) matches Some(v) ==> v < 0x400_0000_0000,
{
    if spec_try_read_varint(s) is Some {
        let k = choose|k: int| k <= 5 && #[trigger] is_terminator(s, k);
        lemma_groups_be_bound(s.take(k + 1));
        lemma_pow128_small((k + 1) as nat);
    }
}

/// The bytes of `leb128_bytes(n)` end at their last byte: it is the only one whose high bit
/// is clear, and the digits give `n` back.
pub proof fn lemma_leb128_decodes(n: nat)
    ensures
        leb128_bytes(n).len() >= 1,
        is_terminator(leb128_bytes(n), leb128_bytes(n).len() - 1),
        groups_le(leb128_bytes(n)) == n,
    decreases n,
{
    let b = leb128_bytes(n);
    if n < 128 {
        assert(b.drop_first() =~= Seq::<u8>::empty());
        assert(groups_le(b.drop_first()) == 0);
        assert(b[0] == n as u8);
        assert(groups_le(b) == (b[0] % 128) as nat + 128 * groups_le(b.drop_first()));
    } else {
        lemma_leb128_decodes(n / 128);
        let r = leb128_bytes(n / 128);
        assert(b.drop_first() =~= r);
        assert forall|j: int| 0 <= j < b.len() - 1 implies b[j] >= 0x80 by {
            if j > 0 {
                assert(b[j] == r[j - 1]);
            }
        }
        assert(b[b.len() - 1] == r[r.len() - 1]);
        assert(b[0] == (n % 128 + 128) as u8);
        assert(b[0] % 128 == n % 128);
        assert(groups_le(b) == (b[0] % 128) as nat + 128 * groups_le(r));
        assert(n == n % 128 + 128 * (n / 128));
    }
}

/// A terminated varint keeps its terminator and its digits when more bytes follow.
pub proof fn lemma_leb128_prefix(n: nat, t: Seq<u8>)
    ensures
        is_terminator(leb128_bytes(n) + t, leb128_bytes(n).len() - 1),
        (leb128_bytes(n) + t).take(leb128_bytes(n).len() as int) == leb128_bytes(n),
{
    lemma_leb128_decodes(n);
    let b = leb128_bytes(n);
    assert forall|j: int| 0 <= j < b.len() - 1 implies (b + t)[j] >= 0x80 by {
        assert((b + t)[j] == b[j]);
    }
    assert((b + t).take(b.len() as int) =~= b);
}

/// A number below 128^k takes at most k bytes.
pub proof fn lemma_leb128_len(n: nat, k: nat)
    requires
        k >= 1,
        n < pow128(k),
    ensures
        leb128_bytes(n).len() <= k,
    decreases n,
{
    if n >= 128 {
        assert(n / 128 < pow128((k - 1) as nat)) by (nonlinear_arith)
            requires
                n < pow128(k),
                pow128(k) == 128 * pow128((k - 1) as nat),
        ;
        if k == 1 {
            assert(pow128(1) == 128) by {
                reveal_with_fuel(pow128, 2);
            }
        } else {
            lemma_leb128_len(n / 128, (k - 1) as nat);
        }
    }
}

/// A number below 2 * 128^j whose encoding has j + 1 bytes has a last byte below 2.
pub proof fn lemma_leb128_last_small(n: nat, j: nat)
    requires
        n < 2 * pow128(j),
        leb128_bytes(n).len() == j + 1,
    ensures
        leb128_bytes(n)[j as int] < 2,
    decreases j,
{
    if j > 0 {
        assert(n >= 128);
        assert(n / 128 < 2 * pow128((j - 1) as nat)) by (nonlinear_arith)
            requires
                n < 2 * pow128(j),
                pow128(j) == 128 * pow128((j - 1) as nat),
        ;
        lemma_leb128_last_small(n / 128, (j - 1) as nat);
        assert(leb128_bytes(n)[j as int] == leb128_bytes(n / 128)[j - 1]);
    }
}

/// The powers of 128 that bound the integer widths.
pub proof fn lemma_pow128_widths()
    ensures
        pow128(2) == 0x4000,
        pow128(3) == 0x20_0000,
        pow128(5) == 0x8_0000_0000,
        pow128(9) == 0x8000_0000_0000_0000,
        pow128(10) == 0x40_0000_0000_0000_0000,
{
    reveal_with_fuel(pow128, 11);
}

/// The first byte of `leb128_bytes(n)` and what follows it.
pub proof fn lemma_leb128_first(n: nat)
    ensures
        n < 128 ==> leb128_bytes(n) == seq![n as u8],
        n >= 128 ==> leb128_bytes(n) == seq![leb128_bytes(n)[0]] + leb128_bytes(n / 128),
        n >= 128 ==> leb128_bytes(n)[0] >= 0x80,
        n >= 128 ==> n / 128 < n,
{
    if n >= 128 {
        assert(leb128_bytes(n) =~= seq![leb128_bytes(n)[0]] + leb128_bytes(n / 128));
    }
}


/// Two bytes, the first with its high bit set and the second without, read as the first
/// byte's low seven bits times 128 plus the second byte: the first digit is the most
/// significant.
pub proof fn lemma_try_read_varint_two_bytes(b0: u8, b1: u8, t: Seq<u8>)
    requires
        b0 >= 0x80,
        b1 < 0x80,
    ensures
        spec_try_read_varint(seq![b0, b1] + t) == Some(((b0 % 128) as nat * 128 + b1 as nat) as u64),
{
    let s = seq![b0, b1] + t;
    assert(is_terminator(s, 1));
    let c = choose|c: int| c <= 5 && #[trigger] is_terminator(s, c);
    lemma_terminator_unique(s, 1, c);
    let p = s.take(2);
    assert(p.drop_last() =~= seq![b0]);
    assert(seq![b0].drop_last() =~= Seq::<u8>::empty());
    assert(groups_be(seq![b0]) == groups_be(seq![b0].drop_last()) * 128 + (b0 % 128) as nat);
    assert(groups_be(p) == groups_be(p.drop_last()) * 128 + (p.last() % 128) as nat);
}

} // verus!
