//! Parsing of the management tool's arguments: `network/prefix` and MAC
//! addresses.
use vstd::prelude::*;
use vstd::slice::slice_subrange;
use vstd::string::StringSliceAdditionalSpecFns;
use crate::fields::{split_fields, split_on};

verus! {

/// The value of the hexadecimal digit `c`, or -1 where `c` is not one.
pub open spec fn hex_digit_value(c: u8) -> int {
    if 0x30 <= c <= 0x39 {
        c - 0x30
    } else if 0x61 <= c <= 0x66 {
        c - 0x61 + 10
    } else if 0x41 <= c <= 0x46 {
        c - 0x41 + 10
    } else {
        -1
    }
}

/// The value of `c` as a digit in `base`, or -1 where it is not one.
pub open spec fn digit_value(c: u8, base: int) -> int {
    if hex_digit_value(c) < base {
        hex_digit_value(c)
    } else {
        -1
    }
}

/// Every byte of `s` is a digit in `base`.
pub open spec fn all_digits(s: Seq<u8>, base: int) -> bool {
    forall|i: int| 0 <= i < s.len() ==> digit_value(#[trigger] s[i], base) >= 0
}

/// The value of the digits `s` in `base`, most significant first.
pub open spec fn digits_value(s: Seq<u8>, base: int) -> int
    decreases s.len(),
{
    if s.len() == 0 {
        0
    } else {
        digits_value(s.drop_last(), base) * base + digit_value(s.last(), base)
    }
}

/// `s` without one leading `+`, which std's integer parsers accept.
pub open spec fn unsigned_digits(s: Seq<u8>) -> Seq<u8> {
    if s.len() > 0 && s[0] == 0x2b {
        s.skip(1)
    } else {
        s
    }
}

/// `s` reads as an unsigned integer in `base` of at most `max`, as
/// `from_str_radix` reads one: an optional `+`, then at least one digit.
pub open spec fn radix_ok(s: Seq<u8>, base: int, max: int) -> bool {
    unsigned_digits(s).len() > 0 && all_digits(unsigned_digits(s), base) && digits_value(
        unsigned_digits(s),
        base,
    ) <= max
}

/// The value that `s` reads as, where `radix_ok` holds.
pub open spec fn radix_value(s: Seq<u8>, base: int) -> int {
    digits_value(unsigned_digits(s), base)
}

/// `s` is one decimal part of a dotted IPv4 address: one to three digits, no
/// leading zero, at most 255.
pub open spec fn octet_ok(s: Seq<u8>) -> bool {
    1 <= s.len() <= 3 && s[0] != 0x2b && !(s.len() > 1 && s[0] == 0x30) && radix_ok(s, 10, 255)
}

/// The mask of a network prefix of `prefix` bits, 0 to 32: the top `prefix`
/// bits set. A prefix of 0 gives mask 0, which every address matches.
pub open spec fn prefix_mask(prefix: int) -> u32 {
    if prefix == 0 {
        0
    } else {
        (0xffff_ffffu32 << ((32 - prefix) as u32)) as u32
    }
}

/// What `network/prefix` text names: the network address in host order and
/// its mask. Empty text names `(0, 0xffff_ffff)`. Otherwise the text is one
/// dotted IPv4 address, a `/`, and a prefix length from 0 to 32.
pub open spec fn ip_mask_of(b: Seq<u8>) -> Option<(u32, u32)> {
    if b.len() == 0 {
        Some((0, 0xffff_ffff))
    } else {
        let parts = split_on(b, 0x2f);
        let octets = split_on(parts[0], 0x2e);
        if parts.len() == 2 && octets.len() == 4 && (forall|k: int|
            0 <= k < 4 ==> octet_ok(#[trigger] octets[k])) && radix_ok(parts[1], 10, 32) {
            Some(
                (
                    (radix_value(octets[0], 10) * 0x1000000 + radix_value(octets[1], 10) * 0x10000
                        + radix_value(octets[2], 10) * 0x100 + radix_value(octets[3], 10)) as u32,
                    prefix_mask(radix_value(parts[1], 10)),
                ),
            )
        } else {
            None
        }
    }
}

/// The first `n` bytes named by `fields`, most significant first.
pub open spec fn bytes_value(fields: Seq<Seq<u8>>, n: int) -> int
    decreases n,
{
    if n <= 0 {
        0
    } else {
        bytes_value(fields, n - 1) * 256 + radix_value(fields[n - 1], 16)
    }
}

/// What `aa:bb:cc:dd:ee:ff` text names: the MAC address right-aligned in 64
/// bits, the first byte most significant. Each of the six parts is a byte in
/// hexadecimal.
pub open spec fn mac_of(b: Seq<u8>) -> Option<u64> {
    let parts = split_on(b, 0x3a);
    if parts.len() == 6 && forall|k: int| 0 <= k < 6 ==> radix_ok(#[trigger] parts[k], 16, 255) {
        Some(bytes_value(parts, 6) as u64)
    } else {
        None
    }
}

/// Digit values are never negative.
pub proof fn lemma_digits_value_nonneg(s: Seq<u8>, base: int)
    requires
        base >= 1,
        all_digits(s, base),
    ensures
        digits_value(s, base) >= 0,
    decreases s.len(),
{
    if s.len() > 0 {
        lemma_digits_value_nonneg(s.drop_last(), base);
        assert(digit_value(s[s.len() - 1], base) >= 0);
        assert(digits_value(s.drop_last(), base) * base >= 0) by (nonlinear_arith)
            requires
                digits_value(s.drop_last(), base) >= 0,
                base >= 1,
        ;
    }
}

/// More digits never give a smaller value.
pub proof fn lemma_digits_value_prefix(s: Seq<u8>, base: int, i: int)
    requires
        base >= 1,
        0 <= i <= s.len(),
        all_digits(s, base),
    ensures
        digits_value(s.take(i), base) <= digits_value(s, base),
    decreases s.len(),
{
    if i < s.len() {
        let t = s.drop_last();
        assert(t.take(i) =~= s.take(i));
        lemma_digits_value_prefix(t, base, i);
        lemma_digits_value_nonneg(t, base);
        assert(digit_value(s[s.len() - 1], base) >= 0);
        assert(digits_value(t, base) * base >= digits_value(t, base)) by (nonlinear_arith)
            requires
                digits_value(t, base) >= 0,
                base >= 1,
        ;
    } else {
        assert(s.take(i) =~= s);
    }
}

/// The value of the hexadecimal digit `c`, or 16 where `c` is not one.
fn hex_digit(c: u8) -> (r: u64)
    ensures
        hex_digit_value(c) >= 0 ==> r as int == hex_digit_value(c),
        hex_digit_value(c) < 0 ==> r == 16,
{
    if 0x30 <= c && c <= 0x39 {
        (c - 0x30) as u64
    } else if 0x61 <= c && c <= 0x66 {
        (c - 0x61 + 10) as u64
    } else if 0x41 <= c && c <= 0x46 {
        (c - 0x41 + 10) as u64
    } else {
        16
    }
}

/// Reads `b[start..end]` as an unsigned integer in `base` of at most `max`, as
/// `from_str_radix` does.
pub fn parse_radix(b: &[u8], start: usize, end: usize, base: u64, max: u64) -> (r: Option<u64>)
    requires
        start <= end <= b@.len(),
        2 <= base <= 16,
        max < 0x1_0000_0000,
    ensures
        r is Some <==> radix_ok(b@.subrange(start as int, end as int), base as int, max as int),
        r is Some ==> r->0 as int == radix_value(b@.subrange(start as int, end as int), base as int),
{
    let ghost s = b@.subrange(start as int, end as int);
    let mut first = start;
    if start < end && b[start] == 0x2b {
        first = start + 1;
    }
    let ghost d = unsigned_digits(s);
    assert(d =~= b@.subrange(first as int, end as int));
    if first == end {
        return None;
    }
    let mut acc: u64 = 0;
    let mut i: usize = first;
    while i < end
        invariant
            first <= i <= end <= b@.len(),
            d == b@.subrange(first as int, end as int),
            d == unsigned_digits(s),
            s == b@.subrange(start as int, end as int),
            2 <= base <= 16,
            max < 0x1_0000_0000,
            acc <= max,
            all_digits(d.take(i - first), base as int),
            acc as int == digits_value(d.take(i - first), base as int),
        decreases end - i,
    {
        let ghost k = i - first;
        proof {
            assert(d.take(k + 1).drop_last() =~= d.take(k));
            assert(d.take(k + 1).last() == b@[i as int]);
        }
        let v = hex_digit(b[i]);
        if v >= base {
            proof {
                assert(d[k] == b@[i as int]);
                assert(digit_value(d[k], base as int) < 0);
                assert(!all_digits(d, base as int));
            }
            return None;
        }
        assert(acc * base <= 0x10_0000_0000) by (nonlinear_arith)
            requires
                acc < 0x1_0000_0000,
                base <= 16,
        ;
        acc = acc * base + v;
        proof {
            assert forall|j: int| 0 <= j < k + 1 implies digit_value(#[trigger] d.take(k + 1)[j], base as int) >= 0 by {
                if j < k {
                    assert(d.take(k + 1)[j] == d.take(k)[j]);
                }
            }
        }
        assert(acc as int == digits_value(d.take(k + 1), base as int));
        if acc > max {
            proof {
                if all_digits(d, base as int) {
                    lemma_digits_value_prefix(d, base as int, k + 1);
                    assert(digits_value(d, base as int) > max);
                }
            }
            return None;
        }
        i = i + 1;
    }
    proof {
        assert(d.take(end - first) =~= d);
    }
    Some(acc)
}

/// Reads one decimal part of a dotted IPv4 address.
fn parse_octet(b: &[u8], start: usize, end: usize) -> (r: Option<u64>)
    requires
        start <= end <= b@.len(),
    ensures
        r is Some <==> octet_ok(b@.subrange(start as int, end as int)),
        r is Some ==> r->0 as int == radix_value(b@.subrange(start as int, end as int), 10),
        r is Some ==> r->0 <= 255,
{
    let len = end - start;
    if len < 1 || len > 3 || b[start] == 0x2b || (len > 1 && b[start] == 0x30) {
        return None;
    }
    parse_radix(b, start, end, 10, 255)
}

/// Parses `network/prefix` text, such as `10.0.0.0/8`, into the network
/// address in host order and the mask of the prefix, 0 to 32 bits (`/0`
/// gives mask 0). Empty text gives `(0, 0xffff_ffff)`; text of any other
/// form gives `None`.
pub fn parse_ip_mask(s: &str) -> (r: Option<(u32, u32)>)
    ensures
        r == ip_mask_of(s.spec_bytes()),
{
    let b = s.as_bytes();
    if b.len() == 0 {
        return Some((0, 0xffff_ffff));
    }
    let parts = split_fields(b, 0x2f);
    if parts.len() != 2 {
        return None;
    }
    let ghost fields = split_on(b@, 0x2f);
    let (ns, ne) = parts[0];
    let net_text = slice_subrange(b, ns, ne);
    assert(net_text@ == fields[0]);
    let octets = split_fields(net_text, 0x2e);
    if octets.len() != 4 {
        return None;
    }
    let ghost os = split_on(net_text@, 0x2e);
    let mut values: Vec<u64> = Vec::new();
    let mut k: usize = 0;
    while k < 4
        invariant
            k <= 4,
            octets@.len() == 4,
            os == split_on(net_text@, 0x2e),
            b@ == s.spec_bytes(),
            b@.len() > 0,
            split_on(b@, 0x2f).len() == 2,
            net_text@ == split_on(b@, 0x2f)[0],
            forall|j: int|
                0 <= j < 4 ==> #[trigger] octets@[j].0 <= octets@[j].1 <= net_text@.len()
                    && net_text@.subrange(octets@[j].0 as int, octets@[j].1 as int) == os[j],
            values@.len() == k,
            forall|j: int| 0 <= j < k ==> octet_ok(#[trigger] os[j]),
            forall|j: int| 0 <= j < k ==> #[trigger] values@[j] as int == radix_value(os[j], 10),
            forall|j: int| 0 <= j < k ==> #[trigger] values@[j] <= 255,
        decreases 4 - k,
    {
        let (os_start, os_end) = octets[k];
        match parse_octet(net_text, os_start, os_end) {
            Some(v) => values.push(v),
            None => {
                proof {
                    assert(!octet_ok(os[k as int]));
                    assert(os == split_on(split_on(s.spec_bytes(), 0x2f)[0], 0x2e));
                }
                return None;
            },
        }
        k = k + 1;
    }
    let (ps, pe) = parts[1];
    let prefix = match parse_radix(b, ps, pe, 10, 32) {
        Some(p) => p,
        None => {
            return None;
        },
    };
    let net = values[0] * 0x1000000 + values[1] * 0x10000 + values[2] * 0x100 + values[3];
    let mask = if prefix == 0 {
        0
    } else {
        0xffff_ffffu32 << ((32 - prefix) as u32)
    };
    Some((net as u32, mask))
}

/// Parses MAC address text, such as `00:11:22:33:44:55`, into the address
/// right-aligned in 64 bits, the first byte most significant. Text of any
/// other form gives `None`.
pub fn parse_mac_address(s: &str) -> (r: Option<u64>)
    ensures
        r == mac_of(s.spec_bytes()),
{
    let b = s.as_bytes();
    let parts = split_fields(b, 0x3a);
    if parts.len() != 6 {
        return None;
    }
    let ghost ps = split_on(b@, 0x3a);
    let mut res: u64 = 0;
    let mut k: usize = 0;
    while k < 6
        invariant
            k <= 6,
            parts@.len() == 6,
            ps == split_on(b@, 0x3a),
            b@ == s.spec_bytes(),
            forall|j: int|
                0 <= j < 6 ==> #[trigger] parts@[j].0 <= parts@[j].1 <= b@.len() && b@.subrange(
                    parts@[j].0 as int,
                    parts@[j].1 as int,
                ) == ps[j],
            forall|j: int| 0 <= j < k ==> radix_ok(#[trigger] ps[j], 16, 255),
            res as int == bytes_value(ps, k as int),
            res < pow256(k as int),
        decreases 6 - k,
    {
        let (start, end) = parts[k];
        let byte = match parse_radix(b, start, end, 16, 255) {
            Some(v) => v,
            None => {
                return None;
            },
        };
        assert(res * 256 + byte < pow256(k + 1)) by (nonlinear_arith)
            requires
                res < pow256(k as int),
                byte <= 255,
                pow256(k + 1) == pow256(k as int) * 256,
        ;
        res = res * 256 + byte;
        k = k + 1;
    }
    Some(res)
}

/// 256 to the power `k`, for `k` up to 6.
pub open spec fn pow256(k: int) -> int {
    if k <= 0 {
        1
    } else if k == 1 {
        0x100
    } else if k == 2 {
        0x10000
    } else if k == 3 {
        0x1000000
    } else if k == 4 {
        0x100000000
    } else if k == 5 {
        0x10000000000
    } else {
        0x1000000000000
    }
}

} // verus!
