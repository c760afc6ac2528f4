//! Byte-level helpers shared by the packet codec and the discovery protocol:
//! little-endian 32-bit encoding, decimal port numbers, and ASCII trimming.

use vstd::prelude::*;

verus! {

/// The four little-endian bytes of a 32-bit value, least significant first.
pub open spec fn u32_le_bytes(x: u32) -> Seq<u8> {
    seq![
        (x & 0xff) as u8,
        ((x >> 8) & 0xff) as u8,
        ((x >> 16) & 0xff) as u8,
        ((x >> 24) & 0xff) as u8,
    ]
}

/// The 32-bit value whose little-endian bytes are `b0 b1 b2 b3`.
pub open spec fn u32_from_le(b0: u8, b1: u8, b2: u8, b3: u8) -> u32 {
    (b0 as u32) | ((b1 as u32) << 8) | ((b2 as u32) << 16) | ((b3 as u32) << 24)
}

/// Decoding the little-endian bytes of a value gives the value back.
pub proof fn lemma_u32_le_round_trip(x: u32)
    ensures
        u32_from_le(
            u32_le_bytes(x)[0],
            u32_le_bytes(x)[1],
            u32_le_bytes(x)[2],
            u32_le_bytes(x)[3],
        ) == x,
{
    assert(((x & 0xff) as u8 as u32) | ((((x >> 8) & 0xff) as u8 as u32) << 8)
        | ((((x >> 16) & 0xff) as u8 as u32) << 16) | ((((x >> 24) & 0xff) as u8 as u32) << 24)
        == x) by (bit_vector);
}

/// Appends the four little-endian bytes of `x` to `out`.
pub fn push_u32_le(out: &mut Vec<u8>, x: u32)
    ensures
        final(out)@ =~= old(out)@ + u32_le_bytes(x),
{
    out.push((x & 0xff) as u8);
    out.push(((x >> 8) & 0xff) as u8);
    out.push(((x >> 16) & 0xff) as u8);
    out.push(((x >> 24) & 0xff) as u8);
}

/// Reads the 32-bit little-endian value at offset `i` of `data`.
pub fn read_u32_le(data: &Vec<u8>, i: usize) -> (x: u32)
    requires
        i + 4 <= data@.len(),
    ensures
        x == u32_from_le(
            data@[i as int],
            data@[i as int + 1],
            data@[i as int + 2],
            data@[i as int + 3],
        ),
{
    let n = data.len();
    proof {
        assert(i + 4 <= n);
    }
    (data[i] as u32) | ((data[i + 1] as u32) << 8) | ((data[i + 2] as u32) << 16)
        | ((data[i + 3] as u32) << 24)
}

/// ASCII decimal digit.
pub open spec fn is_ascii_digit(b: u8) -> bool {
    0x30 <= b <= 0x39
}

/// Every byte of `s` is an ASCII decimal digit.
pub open spec fn all_digits(s: Seq<u8>) -> bool {
    forall|i: int| 0 <= i < s.len() ==> is_ascii_digit(#[trigger] s[i])
}

/// The numeric value of an ASCII digit string (most significant first).
pub open spec fn dec_value(s: Seq<u8>) -> nat
    decreases s.len(),
{
    if s.len() == 0 {
        0
    } else {
        dec_value(s.drop_last()) * 10 + (s.last() - 0x30) as nat
    }
}

/// The canonical ASCII decimal digits of `n`, without leading zeros.
pub open spec fn dec_digits(n: nat) -> Seq<u8>
    decreases n,
{
    if n < 10 {
        seq![(0x30 + n) as u8]
    } else {
        dec_digits(n / 10) + seq![(0x30 + n % 10) as u8]
    }
}

/// The canonical digits of a number are digits and evaluate back to it.
pub proof fn lemma_dec_digits_value(n: nat)
    ensures
        all_digits(dec_digits(n)),
        dec_value(dec_digits(n)) == n,
        dec_digits(n).len() >= 1,
    decreases n,
{
    if n < 10 {
        assert(dec_digits(n) =~= seq![(0x30 + n) as u8]);
        assert(dec_value(dec_digits(n)) == dec_value(seq![(0x30 + n) as u8].drop_last()) * 10 + n);
        assert(seq![(0x30 + n) as u8].drop_last() =~= Seq::<u8>::empty());
    } else {
        lemma_dec_digits_value(n / 10);
        let s = dec_digits(n);
        assert(s =~= dec_digits(n / 10) + seq![(0x30 + n % 10) as u8]);
        assert(s.drop_last() =~= dec_digits(n / 10));
        assert(s.last() == (0x30 + n % 10) as u8);
        assert(dec_value(s) == (n / 10) * 10 + n % 10);
        assert((n / 10) * 10 + n % 10 == n) by (nonlinear_arith);
        assert forall|i: int| 0 <= i < s.len() implies is_ascii_digit(#[trigger] s[i]) by {
            if i < s.len() - 1 {
                assert(s[i] == dec_digits(n / 10)[i]);
            }
        }
    }
}

/// Appending digits never shrinks the value: the value of a digit-string
/// prefix is at most the value of the whole string.
pub proof fn lemma_dec_value_prefix(s: Seq<u8>, i: int)
    requires
        0 <= i <= s.len(),
        all_digits(s),
    ensures
        dec_value(s.subrange(0, i)) <= dec_value(s),
    decreases s.len() - i,
{
    if i < s.len() {
        lemma_dec_value_prefix(s, i + 1);
        let p = s.subrange(0, i);
        let q = s.subrange(0, i + 1);
        assert(q.drop_last() =~= p);
        assert(dec_value(q) == dec_value(p) * 10 + (q.last() - 0x30) as nat);
        assert(dec_value(p) <= dec_value(p) * 10) by (nonlinear_arith);
    } else {
        assert(s.subrange(0, i) =~= s);
    }
}

/// Appends the decimal digits of `n` to `out`, most significant first.
pub fn push_dec(out: &mut Vec<u8>, n: u16)
    ensures
        final(out)@ =~= old(out)@ + dec_digits(n as nat),
    decreases n,
{
    if n < 10 {
        out.push(0x30 + (n as u8));
    } else {
        push_dec(out, n / 10);
        out.push(0x30 + ((n % 10) as u8));
    }
}

/// Parses an ASCII digit string as a number up to 65535. Returns the value
/// exactly when the string is non-empty, all digits, and in range.
#[verifier::loop_isolation(false)]
pub fn parse_dec_u16(s: &Vec<u8>) -> (r: Option<u16>)
    ensures
        match r {
            Some(v) => s@.len() > 0 && all_digits(s@) && dec_value(s@) == v as nat,
            None => s@.len() == 0 || !all_digits(s@) || dec_value(s@) > 65535,
        },
{
    if s.len() == 0 {
        return None;
    }
    let mut value: u32 = 0;
    let mut i: usize = 0;
    while i < s.len()
        invariant
            0 <= i <= s@.len(),
            forall|j: int| 0 <= j < i ==> is_ascii_digit(#[trigger] s@[j]),
            value == dec_value(s@.subrange(0, i as int)),
            value <= 65535,
        decreases s@.len() - i,
    {
        let b = s[i];
        if b < 0x30 || b > 0x39 {
            assert(!is_ascii_digit(s@[i as int]));
            return None;
        }
        let next: u32 = value * 10 + ((b - 0x30) as u32);
        assert(s@.subrange(0, i as int + 1).drop_last() =~= s@.subrange(0, i as int));
        assert(dec_value(s@.subrange(0, i as int + 1)) == dec_value(s@.subrange(0, i as int)) * 10
            + (b - 0x30) as nat);
        if next > 65535 {
            if all_digits_check(s) {
                proof {
                    lemma_dec_value_prefix(s@, i as int + 1);
                }
            }
            return None;
        }
        value = next;
        i = i + 1;
    }
    assert(s@.subrange(0, i as int) =~= s@);
    assert(all_digits(s@));
    Some(value as u16)
}

/// Scans `s` for any byte that is not an ASCII decimal digit.
#[verifier::loop_isolation(false)]
fn all_digits_check(s: &Vec<u8>) -> (r: bool)
    ensures
        r == all_digits(s@),
{
    let mut i: usize = 0;
    while i < s.len()
        invariant
            0 <= i <= s@.len(),
            forall|j: int| 0 <= j < i ==> is_ascii_digit(#[trigger] s@[j]),
        decreases s@.len() - i,
    {
        let b = s[i];
        if b < 0x30 || b > 0x39 {
            assert(!is_ascii_digit(s@[i as int]));
            return false;
        }
        i = i + 1;
    }
    true
}

/// ASCII whitespace: space, tab, line feed, carriage return.
pub open spec fn is_ascii_space(b: u8) -> bool {
    b == 0x20 || b == 0x09 || b == 0x0a || b == 0x0d
}

/// `s` with leading and trailing ASCII whitespace removed, as the subrange
/// between the first and last non-space bytes.
pub open spec fn trimmed(s: Seq<u8>) -> Seq<u8> {
    let lo = first_non_space(s, 0);
    let hi = last_non_space(s);
    if lo < hi {
        s.subrange(lo, hi)
    } else {
        Seq::empty()
    }
}

/// Index of the first non-space byte at or after `from` (or the length).
pub open spec fn first_non_space(s: Seq<u8>, from: int) -> int
    decreases s.len() - from,
{
    if from < 0 || from >= s.len() {
        s.len() as int
    } else if is_ascii_space(s[from]) {
        first_non_space(s, from + 1)
    } else {
        from
    }
}

/// One past the index of the last non-space byte (or 0).
pub open spec fn last_non_space(s: Seq<u8>) -> int
    decreases s.len(),
{
    if s.len() == 0 {
        0
    } else if is_ascii_space(s.last()) {
        last_non_space(s.drop_last())
    } else {
        s.len() as int
    }
}

/// ASCII whitespace test on a byte.
pub fn is_space_byte(b: u8) -> (r: bool)
    ensures
        r == is_ascii_space(b),
{
    b == 0x20 || b == 0x09 || b == 0x0a || b == 0x0d
}

/// Copies `s` without leading and trailing ASCII whitespace.
#[verifier::loop_isolation(false)]
pub fn trim_ascii(s: &Vec<u8>) -> (r: Vec<u8>)
    ensures
        r@ =~= trimmed(s@),
{
    let mut lo: usize = 0;
    while lo < s.len() && is_space_byte(s[lo])
        invariant
            0 <= lo <= s@.len(),
            first_non_space(s@, 0) == first_non_space(s@, lo as int),
        decreases s@.len() - lo,
    {
        lo = lo + 1;
    }
    assert(first_non_space(s@, lo as int) == lo as int);
    let mut hi: usize = s.len();
    assert(s@.subrange(0, s@.len() as int) =~= s@);
    while hi > lo && is_space_byte(s[hi - 1])
        invariant
            lo <= hi <= s@.len(),
            last_non_space(s@) == last_non_space(s@.subrange(0, hi as int)),
        decreases hi,
    {
        assert(s@.subrange(0, hi as int).drop_last() =~= s@.subrange(0, hi as int - 1));
        hi = hi - 1;
    }
    proof {
        let pre = s@.subrange(0, hi as int);
        if hi > lo {
            assert(!is_ascii_space(pre.last()));
            assert(last_non_space(pre) == hi as int);
        } else {
            lemma_last_non_space_le(pre);
        }
    }
    let mut r: Vec<u8> = Vec::new();
    let mut i: usize = lo;
    while i < hi
        invariant
            lo <= i <= hi <= s@.len(),
            r@ =~= s@.subrange(lo as int, i as int),
        decreases hi - i,
    {
        r.push(s[i]);
        assert(r@ =~= s@.subrange(lo as int, i as int + 1));
        i = i + 1;
    }
    proof {
        if lo >= hi {
            assert(r@ =~= Seq::<u8>::empty());
        }
    }
    r
}

/// `last_non_space` never exceeds the length.
proof fn lemma_last_non_space_le(s: Seq<u8>)
    ensures
        last_non_space(s) <= s.len(),
    decreases s.len(),
{
    if s.len() > 0 && is_ascii_space(s.last()) {
        lemma_last_non_space_le(s.drop_last());
    }
}

} // verus!
