//! One's-complement checksums of IPv4 headers and their incremental update.
use vstd::prelude::*;
use vstd::arithmetic::div_mod::{lemma_fundamental_div_mod, lemma_mod_multiples_basic};
use crate::wire::be16;

verus! {

/// The `i`-th big-endian 16-bit word of `h`.
pub open spec fn word(h: Seq<u8>, i: int) -> int {
    be16(h, 2 * i)
}

/// The sum of the first `n` 16-bit words of `h`, as a plain integer.
pub open spec fn words_sum(h: Seq<u8>, n: int) -> int
    decreases n,
{
    if n <= 0 {
        0
    } else {
        words_sum(h, n - 1) + word(h, n - 1)
    }
}

/// Adds the carries above bit 16 back into the low 16 bits once.
pub open spec fn fold16(s: int) -> int {
    s % 0x10000 + s / 0x10000
}

/// The IPv4 header checksum of a 20-byte header: the one's complement of the
/// one's-complement sum of its words, the checksum field left out.
#[verifier::opaque]
pub open spec fn ip_checksum_of(h: Seq<u8>) -> u16 {
    (0xffff - fold16(fold16(words_sum(h, 10) - word(h, 5)))) as u16
}

/// A 20-byte IPv4 header whose checksum validates: its words, the checksum
/// included, have the one's-complement sum 0xffff.
pub open spec fn ip_header_valid(h: Seq<u8>) -> bool {
    fold16(fold16(words_sum(h, 10))) == 0xffff
}

/// One's-complement addition of two 16-bit values (end-around carry).
pub open spec fn oc_add(a: int, b: int) -> int {
    if a + b > 0xffff {
        a + b - 0xffff
    } else {
        a + b
    }
}

/// The checksum `!(!c + !old + new)` of RFC 1624, eqn. 3, after the 16-bit word
/// `old` of the covered data has become `new`.
pub open spec fn csum_update(c: u16, old: u16, new: u16) -> u16 {
    (0xffff - oc_add(oc_add(0xffff - c, 0xffff - old), new as int)) as u16
}

/// Computes the checksum of the IPv4 header `ipv4hdr`, ignoring the value that
/// its checksum field holds.
pub fn calculate_ip_checksum(ipv4hdr: &[u8; 20]) -> (r: u16)
    ensures
        r == ip_checksum_of(ipv4hdr@),
{
    let mut checksum: u32 = 0;
    let mut i: usize = 0;
    while i < 10
        invariant
            i <= 10,
            ipv4hdr@.len() == 20,
            checksum as int == words_sum(ipv4hdr@, i as int),
            checksum <= 0xffff * i,
        decreases 10 - i,
    {
        checksum = checksum + (ipv4hdr[2 * i] as u32) * 256 + (ipv4hdr[2 * i + 1] as u32);
        i = i + 1;
    }
    // the header sum includes the existing checksum: take it out again
    let existing: u32 = (ipv4hdr[10] as u32) * 256 + (ipv4hdr[11] as u32);
    proof {
        lemma_words_sum_has(ipv4hdr@, 10, 5);
    }
    checksum = checksum - existing;
    // fold the carries into the low 16 bits
    checksum = checksum % 0x10000 + checksum / 0x10000;
    checksum = checksum % 0x10000 + checksum / 0x10000;
    proof {
        reveal(ip_checksum_of);
    }
    0xffff - (checksum as u16)
}

/// Computes the checksum after one 16-bit word of the covered data changed from
/// `old` to `new`, following RFC 1624, eqn. 3.
pub fn update_udp_checksum(csum: u16, old: u16, new: u16) -> (r: u16)
    ensures
        r == csum_update(csum, old, new),
        (r as int - (csum as int + old as int - new as int)) % 0xffff == 0,
{
    let mut sum: u32 = (0xffff - csum) as u32 + (0xffff - old) as u32;
    if sum > 0xffff {
        sum = sum - 0xffff;
    }
    sum = sum + new as u32;
    if sum > 0xffff {
        sum = sum - 0xffff;
    }
    0xffff - (sum as u16)
}

/// A sum of words contains each of its words.
pub proof fn lemma_words_sum_has(h: Seq<u8>, n: int, i: int)
    requires
        0 <= i < n,
    ensures
        words_sum(h, n) >= word(h, i),
        words_sum(h, n) - word(h, i) >= 0,
    decreases n,
{
    if i < n - 1 {
        lemma_words_sum_has(h, n - 1, i);
    }
    lemma_words_sum_nonneg(h, n - 1);
}

/// A sum of words is never negative.
pub proof fn lemma_words_sum_nonneg(h: Seq<u8>, n: int)
    ensures
        words_sum(h, n) >= 0,
    decreases n,
{
    if n > 0 {
        lemma_words_sum_nonneg(h, n - 1);
    }
}

/// Folding the carries once keeps the value modulo 0xffff, does not grow it,
/// and keeps a positive value positive.
pub proof fn lemma_fold16(x: int)
    requires
        0 <= x,
    ensures
        0 <= fold16(x) <= x,
        (x - fold16(x)) % 0xffff == 0,
        x > 0 ==> fold16(x) > 0,
        x < 0x100000 ==> fold16(x) < 0x10010,
        x <= 0xffff ==> fold16(x) == x,
{
    lemma_fundamental_div_mod(x, 0x10000);
    let q = x / 0x10000;
    let r = x % 0x10000;
    assert(x - fold16(x) == 0xffff * q);
    lemma_mod_multiples_basic(q, 0xffff);
    assert(0xffff * q == q * 0xffff);
    if x < 0x100000 {
        assert(q < 16) by (nonlinear_arith)
            requires
                x == 0x10000 * q + r,
                0 <= r,
                x < 0x100000,
        ;
    }
    if x <= 0xffff {
        assert(q == 0) by (nonlinear_arith)
            requires
                x == 0x10000 * q + r,
                0 <= r < 0x10000,
                x <= 0xffff,
                0 <= x,
        ;
    }
}

/// Folding twice brings a sum of at most sixteen words into 16 bits, keeping
/// it modulo 0xffff, and zero only when the sum is zero.
pub proof fn lemma_fold16_twice(x: int)
    requires
        0 <= x < 0x100000,
    ensures
        0 <= fold16(fold16(x)) <= 0xffff,
        (x - fold16(fold16(x))) % 0xffff == 0,
        fold16(fold16(x)) <= x,
        x > 0 ==> fold16(fold16(x)) > 0,
{
    let y = fold16(x);
    lemma_fold16(x);
    lemma_fold16(y);
    if y > 0xffff {
        assert(y / 0x10000 == 1);
        assert(y % 0x10000 == y - 0x10000);
    }
    lemma_congruent_trans(x, y, fold16(y));
}

/// Congruence modulo 0xffff is transitive.
pub proof fn lemma_congruent_trans(a: int, b: int, c: int)
    requires
        (a - b) % 0xffff == 0,
        (b - c) % 0xffff == 0,
    ensures
        (a - c) % 0xffff == 0,
{
    lemma_fundamental_div_mod(a - b, 0xffff);
    lemma_fundamental_div_mod(b - c, 0xffff);
    let k = (a - b) / 0xffff + (b - c) / 0xffff;
    assert(a - c == 0xffff * k) by (nonlinear_arith)
        requires
            a - b == 0xffff * ((a - b) / 0xffff),
            b - c == 0xffff * ((b - c) / 0xffff),
            k == (a - b) / 0xffff + (b - c) / 0xffff,
    ;
    lemma_mod_multiples_basic(k, 0xffff);
    assert(0xffff * k == k * 0xffff);
}

/// The sum of ten header words is at most ten times 0xffff.
pub proof fn lemma_words_sum_bound(h: Seq<u8>, n: int)
    requires
        0 <= n,
        h.len() >= 2 * n,
    ensures
        0 <= words_sum(h, n) <= 0xffff * n,
    decreases n,
{
    if n > 0 {
        lemma_words_sum_bound(h, n - 1);
    }
}

/// Storing `ip_checksum_of(h)` in its field, big-endian, makes the header of
/// `h` validate.
pub proof fn lemma_ip_checksum_validates(h: Seq<u8>)
    requires
        h.len() == 20,
    ensures
        ip_header_valid(
            h.update(10, (ip_checksum_of(h) / 256) as u8).update(11, (ip_checksum_of(h) % 256) as u8),
        ),
{
    reveal(ip_checksum_of);
    let c = ip_checksum_of(h);
    let g = h.update(10, (c / 256) as u8).update(11, (c % 256) as u8);
    reveal_with_fuel(words_sum, 11);
    lemma_words_sum_has(h, 10, 5);
    lemma_words_sum_bound(h, 10);
    let s9 = words_sum(h, 10) - word(h, 5);
    assert(word(g, 5) == c as int);
    assert(words_sum(g, 10) == s9 + c as int);
    lemma_fold16_twice(s9);
    let f = fold16(fold16(s9));
    assert(c as int == 0xffff - f);
    let t = s9 + c as int;
    assert((t - 0) % 0xffff == 0) by {
        assert(t == s9 - f + 0xffff);
        lemma_mod_multiples_basic(1, 0xffff);
        lemma_congruent_trans(t, s9 - f, 0);
    }
    lemma_fold16_twice(t);
    let tf = fold16(fold16(t));
    lemma_congruent_trans(tf, t, 0);
    assert(tf == 0xffff) by {
        assert(0 < tf <= 0xffff);
        assert(tf % 0xffff == 0);
    }
}

/// The sum of the big-endian 16-bit words of `s`, an odd last byte padded with
/// a zero byte.
pub open spec fn seg_sum(s: Seq<u8>) -> int
    decreases s.len(),
{
    if s.len() == 0 {
        0
    } else if s.len() == 1 {
        s[0] as int * 256
    } else {
        be16(s, 0) + seg_sum(s.subrange(2, s.len() as int))
    }
}

/// The word sum of `s` splits after its first `k` words.
pub proof fn lemma_seg_sum_prefix(s: Seq<u8>, k: int)
    requires
        0 <= k,
        2 * k <= s.len(),
    ensures
        seg_sum(s) == words_sum(s, k) + seg_sum(s.subrange(2 * k, s.len() as int)),
    decreases k,
{
    if k == 0 {
        assert(s.subrange(0, s.len() as int) =~= s);
    } else {
        lemma_seg_sum_prefix(s, k - 1);
        let t = s.subrange(2 * k - 2, s.len() as int);
        assert(t.subrange(2, t.len() as int) =~= s.subrange(2 * k, s.len() as int));
        assert(be16(t, 0) == word(s, k - 1));
    }
}

/// The incremental update keeps the checksum modulo 0xffff, as if the old word
/// were added and the new one taken away.
pub proof fn lemma_csum_update_congruent(c: u16, old: u16, new: u16)
    ensures
        (csum_update(c, old, new) as int - (c as int + old as int - new as int)) % 0xffff == 0,
{
}

/// The sum of two multiples of 0xffff is one.
pub proof fn lemma_congruent_add(a: int, b: int)
    requires
        a % 0xffff == 0,
        b % 0xffff == 0,
    ensures
        (a + b) % 0xffff == 0,
{
    lemma_congruent_trans(a + b, b, 0);
}

} // verus!
