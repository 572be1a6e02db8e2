use vstd::prelude::*;

verus! {

/// The value of a 16-bit integer with its two bytes exchanged.
pub open spec fn swap16(n: u16) -> u16 {
    (((n as int) % 0x100) * 0x100 + (n as int) / 0x100) as u16
}

/// The value of a 32-bit integer with its four bytes in reverse order.
pub open spec fn swap32(n: u32) -> u32 {
    let b0 = (n as int) % 0x100;
    let b1 = ((n as int) / 0x100) % 0x100;
    let b2 = ((n as int) / 0x10000) % 0x100;
    let b3 = (n as int) / 0x1000000;
    (b0 * 0x1000000 + b1 * 0x10000 + b2 * 0x100 + b3) as u32
}

/// Exchanges the two bytes of `n` (host to network order on a little-endian machine).
pub fn htons(n: u16) -> (r: u16)
    ensures
        r == swap16(n),
{
    assert(n << 8 | (n & 0xFF00) >> 8 == (((n as int) % 0x100) * 0x100 + (n as int) / 0x100) as u16)
        by (bit_vector);
    n << 8 | (n & 0xFF00) >> 8
}

/// Reverses the four bytes of `n` (host to network order on a little-endian machine).
pub fn htonl(n: u32) -> (r: u32)
    ensures
        r == swap32(n),
{
    proof {
        lemma_swap32_bits(n);
    }
    n << 24 | (n & 0xFF00) << 8 | (n & 0xFF0000) >> 8 | (n & 0xFF000000) >> 24
}

/// Swapping the bytes of a 16-bit integer twice gives the integer back.
pub proof fn lemma_htons_involution(n: u16)
    ensures
        swap16(swap16(n)) == n,
{
}

/// Reversing the bytes of a 32-bit integer twice gives the integer back.
pub proof fn lemma_htonl_involution(n: u32)
    ensures
        swap32(swap32(n)) == n,
{
    let m = swap32(n);
    lemma_swap32_bits(n);
    lemma_swap32_bits(m);
    assert((n << 24 | (n & 0xFF00) << 8 | (n & 0xFF0000) >> 8 | (n & 0xFF000000) >> 24) << 24 | ((
    n << 24 | (n & 0xFF00) << 8 | (n & 0xFF0000) >> 8 | (n & 0xFF000000) >> 24) & 0xFF00) << 8 | ((
    n << 24 | (n & 0xFF00) << 8 | (n & 0xFF0000) >> 8 | (n & 0xFF000000) >> 24) & 0xFF0000) >> 8 | ((
    n << 24 | (n & 0xFF00) << 8 | (n & 0xFF0000) >> 8 | (n & 0xFF000000) >> 24) & 0xFF000000) >> 24
        == n) by (bit_vector);
}

proof fn lemma_swap32_bits(n: u32)
    ensures
        swap32(n) == n << 24 | (n & 0xFF00) << 8 | (n & 0xFF0000) >> 8 | (n & 0xFF000000) >> 24,
{
    assert(n << 24 | (n & 0xFF00) << 8 | (n & 0xFF0000) >> 8 | (n & 0xFF000000) >> 24 == (
        ((n as int) % 0x100) * 0x1000000 + (((n as int) / 0x100) % 0x100) * 0x10000 + (((
        n as int) / 0x10000) % 0x100) * 0x100 + (n as int) / 0x1000000) as u32) by (bit_vector);
}


/// The low byte of `htons(n)` is the high byte of `n`, and its high byte the low byte of `n`.
pub proof fn lemma_htons_bytes(n: u16)
    ensures
        swap16(n) % 0x100 == n / 0x100,
        swap16(n) / 0x100 == n % 0x100,
{
}

/// Byte `k` of `htonl(n)`, counted from the least significant, is byte `3 - k` of `n`.
pub proof fn lemma_htonl_bytes(n: u32)
    ensures
        swap32(n) % 0x100 == n / 0x1000000,
        (swap32(n) / 0x100) % 0x100 == (n / 0x10000) % 0x100,
        (swap32(n) / 0x10000) % 0x100 == (n / 0x100) % 0x100,
        swap32(n) / 0x1000000 == n % 0x100,
{
    lemma_swap32_bits(n);
    assert((n << 24 | (n & 0xFF00) << 8 | (n & 0xFF0000) >> 8 | (n & 0xFF000000) >> 24) % 0x100
        == n / 0x1000000) by (bit_vector);
    assert(((n << 24 | (n & 0xFF00) << 8 | (n & 0xFF0000) >> 8 | (n & 0xFF000000) >> 24) / 0x100)
        % 0x100 == (n / 0x10000) % 0x100) by (bit_vector);
    assert(((n << 24 | (n & 0xFF00) << 8 | (n & 0xFF0000) >> 8 | (n & 0xFF000000) >> 24)
        / 0x10000) % 0x100 == (n / 0x100) % 0x100) by (bit_vector);
    assert((n << 24 | (n & 0xFF00) << 8 | (n & 0xFF0000) >> 8 | (n & 0xFF000000) >> 24)
        / 0x1000000 == n % 0x100) by (bit_vector);
}

} // verus!
