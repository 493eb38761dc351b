//! Single-bit and single-byte views of machine words, with the bit-vector
//! lemmas that relate them to the shift-and-mask steps the codecs take.

use vstd::prelude::*;

verus! {

/// Bit `i` of a 32-bit word (meaningful for `i < 32`).
pub open spec fn bit32(w: u32, i: u32) -> bool {
    (w >> i) & 1 == 1
}

/// Bit `i` of a 64-bit word (meaningful for `i < 64`).
pub open spec fn bit64(w: u64, i: u64) -> bool {
    (w >> i) & 1 == 1
}

/// Byte `i` of a 64-bit word, little-endian (meaningful for `i < 8`).
pub open spec fn byte64(w: u64, i: u64) -> u8 {
    (w >> ((8 * i) as u64)) as u8
}

/// The low `n` bits of a 32-bit word, set.
pub open spec fn mask32(n: int) -> u32 {
    if n >= 32 {
        0xffff_ffffu32
    } else if n <= 0 {
        0u32
    } else {
        ((1u32 << (n as u32)) - 1) as u32
    }
}

/// Widening a 32-bit word leaves its bits in place and its high half clear.
pub proof fn lemma_bit64_of_u32(x: u32)
    by (bit_vector)
    ensures
        forall|p: u32| p < 32 ==> #[trigger] bit64(x as u64, p as u64) == bit32(x, p),
        (x as u64) >> 32 == 0,
{
}

/// A one shifted left inside the word stays at least one.
pub proof fn lemma_shl_one_positive(wd: u32)
    by (bit_vector)
    requires
        wd < 64,
    ensures
        1u64 << (wd as u64) >= 1,
{
}

/// Truncating a 64-bit word whose high half is clear keeps its low bits.
pub proof fn lemma_bit32_of_trunc(c: u64)
    by (bit_vector)
    requires
        c >> 32 == 0,
    ensures
        forall|p: u32| p < 32 ==> #[trigger] bit32(c as u32, p) == bit64(c, p as u64),
{
}

proof fn lemma_u32_eq_low_step(a: u32, b: u32, n: u32)
    by (bit_vector)
    requires
        n < 32,
        a & mask32(n as int) == b & mask32(n as int),
        bit32(a, n) == bit32(b, n),
    ensures
        a & mask32(n + 1 as int) == b & mask32(n + 1 as int),
{
}

proof fn lemma_u32_eq_low(a: u32, b: u32, n: u32)
    requires
        n <= 32,
        forall|p: u32| p < n ==> bit32(a, p) == bit32(b, p),
    ensures
        a & mask32(n as int) == b & mask32(n as int),
    decreases n,
{
    if n == 0 {
        assert(a & mask32(0) == b & mask32(0)) by (bit_vector);
    } else {
        lemma_u32_eq_low(a, b, (n - 1) as u32);
        lemma_u32_eq_low_step(a, b, (n - 1) as u32);
    }
}

/// Two 32-bit words that agree on every bit are equal.
pub proof fn lemma_u32_eq_by_bits(a: u32, b: u32)
    requires
        forall|p: u32| p < 32 ==> bit32(a, p) == bit32(b, p),
    ensures
        a == b,
{
    lemma_u32_eq_low(a, b, 32);
    assert(a == b) by (bit_vector)
        requires
            a & mask32(32) == b & mask32(32),
    ;
}

/// Masking keeps the low `n` bits and clears the rest.
pub proof fn lemma_mask32_bits(x: u32, n: u32)
    by (bit_vector)
    requires
        n <= 32,
    ensures
        forall|p: u32| p < n ==> #[trigger] bit32(x & mask32(n as int), p) == bit32(x, p),
        forall|p: u32| n <= p < 32 ==> !(#[trigger] bit32(x & mask32(n as int), p)),
{
}

/// One masked-write step of the word codec: the bits of the span `[start,
/// start + wd)` take the next `wd` bits of `v` starting at `len`, and every
/// other bit keeps its value.
pub proof fn lemma_word_write_step(code: u64, ncode: u64, v: u32, start: u32, wd: u32, len: u32)
    by (bit_vector)
    requires
        start + wd <= 32,
        len + wd <= 32,
        code >> 32 == 0,
        ncode == (code & !((((1u64 << (wd as u64)) - 1) as u64) << (start as u64))) | ((((v as u64) >> (
        len as u64)) << (start as u64)) & ((((1u64 << (wd as u64)) - 1) as u64) << (start as u64))),
    ensures
        ncode >> 32 == 0,
        forall|p: u32|
            p < 32 && !(start <= p < start + wd) ==> #[trigger] bit64(ncode, p as u64) == bit64(
                code,
                p as u64,
            ),
        forall|p: u32|
            start <= p < start + wd ==> #[trigger] bit64(ncode, p as u64) == bit32(
                v,
                (len + (p - start)) as u32,
            ),
{
}

/// One masked-read step of the word codec: the bits of the span move to the
/// positions `[len, len + wd)` of the accumulator, whose higher bits stay
/// clear and whose lower bits keep their values.
#[verifier::rlimit(60)]
pub proof fn lemma_word_read_step(w: u32, val: u64, nval: u64, start: u32, wd: u32, len: u32)
    by (bit_vector)
    requires
        start + wd <= 32,
        len + wd <= 32,
        val >> (len as u64) == 0,
        nval == val | ((((w as u64) & ((((1u64 << (wd as u64)) - 1) as u64) << (start as u64))) >> (
        start as u64)) << (len as u64)),
    ensures
        nval >> ((len + wd) as u64) == 0,
        forall|j: u32| j < len ==> #[trigger] bit64(nval, j as u64) == bit64(val, j as u64),
        forall|j: u32|
            len <= j < len + wd ==> #[trigger] bit64(nval, j as u64) == bit32(
                w,
                (start + (j - len)) as u32,
            ),
{
}

/// The low `n` bytes of a 64-bit word, set.
pub open spec fn mask64_bytes(n: int) -> u64 {
    if n >= 8 {
        0xffff_ffff_ffff_ffffu64
    } else if n <= 0 {
        0u64
    } else {
        ((1u64 << ((8 * n) as u64)) - 1) as u64
    }
}

/// Shifting right by a byte count and truncating reads that byte.
pub proof fn lemma_byte64_read(v: u64, m: u64)
    by (bit_vector)
    requires
        m < 8,
    ensures
        (((v >> ((8 * m) as u64)) & 0xff) as u8) == byte64(v, m),
{
}

/// One byte-merge step of the buffer codec: byte `m` of the accumulator takes
/// the new byte, lower bytes keep their values, higher bytes stay clear.
pub proof fn lemma_byte_or_step(val: u64, nval: u64, b: u8, m: u64)
    by (bit_vector)
    requires
        m < 8,
        val >> ((8 * m) as u64) == 0,
        nval == val | ((b as u64) << ((8 * m) as u64)),
    ensures
        nval >> ((8 * (m + 1)) as u64) == 0,
        forall|j: u64| j < m ==> #[trigger] byte64(nval, j) == byte64(val, j),
        byte64(nval, m) == b,
{
}

/// A 64-bit accumulator with its bytes at and above `n` clear has those
/// bytes zero.
pub proof fn lemma_high_zero_bytes(val: u64, n: u64)
    by (bit_vector)
    requires
        n <= 8,
        val >> ((8 * n) as u64) == 0,
    ensures
        forall|j: u64| n <= j < 8 ==> #[trigger] byte64(val, j) == 0,
{
}

/// Bit `k` of a byte (meaningful for `k < 8`).
pub open spec fn bit8(b: u8, k: u8) -> bool {
    (b >> k) & 1 == 1
}

/// A cleared byte has no bit set.
pub proof fn lemma_bit8_zero(k: u8)
    by (bit_vector)
    requires
        k < 8,
    ensures
        !bit8(0u8, k),
{
}

/// A cleared word has every byte zero.
pub proof fn lemma_byte64_zero(m: u64)
    by (bit_vector)
    requires
        m < 8,
    ensures
        byte64(0u64, m) == 0,
{
}

/// One bit-merge step of byte packing: bit `k` of the byte takes the new
/// bit, lower bits keep their values, higher bits stay clear.
pub proof fn lemma_bit8_or_step(b: u8, nb: u8, k: u8, v: bool)
    by (bit_vector)
    requires
        k < 8,
        b >> k == 0,
        nb == if v {
            b | (1u8 << k)
        } else {
            b
        },
    ensures
        nb >> ((k + 1) as u8) == 0,
        forall|t: u8| t < k ==> #[trigger] bit8(nb, t) == bit8(b, t),
        bit8(nb, k) == v,
{
}

/// Masking by a byte count keeps the low bytes and clears the rest.
pub proof fn lemma_mask64_bytes(x: u64, n: u64)
    by (bit_vector)
    requires
        n <= 8,
    ensures
        forall|j: u64| j < n ==> #[trigger] byte64(x & mask64_bytes(n as int), j) == byte64(x, j),
        forall|j: u64| n <= j < 8 ==> #[trigger] byte64(x & mask64_bytes(n as int), j) == 0,
{
}

/// Two 64-bit words that agree on every byte are equal.
pub proof fn lemma_u64_eq_by_bytes(a: u64, b: u64)
    requires
        forall|j: u64| j < 8 ==> byte64(a, j) == byte64(b, j),
    ensures
        a == b,
{
    assert(a == b) by (bit_vector)
        requires
            byte64(a, 0) == byte64(b, 0),
            byte64(a, 1) == byte64(b, 1),
            byte64(a, 2) == byte64(b, 2),
            byte64(a, 3) == byte64(b, 3),
            byte64(a, 4) == byte64(b, 4),
            byte64(a, 5) == byte64(b, 5),
            byte64(a, 6) == byte64(b, 6),
            byte64(a, 7) == byte64(b, 7),
    ;
}

/// A 64-bit accumulator with its bits above `len` clear has those bits clear.
pub proof fn lemma_high_zero_bits(val: u64, len: u32)
    by (bit_vector)
    requires
        len <= 32,
        val >> (len as u64) == 0,
    ensures
        val >> 32 == 0,
        forall|j: u32| len <= j < 32 ==> !(#[trigger] bit64(val, j as u64)),
{
}

} // verus!
