use vstd::prelude::*;

verus! {

// Byte values the grammar speaks of.
pub const DOT: u8 = 46;
pub const SLASH: u8 = 47;
pub const ZERO: u8 = 48;
pub const NINE: u8 = 57;

pub open spec fn is_digit(b: u8) -> bool {
    ZERO <= b <= NINE
}

/// Numeric value of a run of decimal digit bytes.
pub open spec fn decimal_value(t: Seq<u8>) -> int
    decreases t.len(),
{
    if t.len() == 0 {
        0
    } else {
        decimal_value(t.drop_last()) * 10 + (t.last() - ZERO)
    }
}

/// The position just past the run of digits that starts at `i`.
pub open spec fn digits_end(s: Seq<u8>, i: int) -> int
    decreases s.len() - i,
{
    if 0 <= i < s.len() && is_digit(s[i]) {
        digits_end(s, i + 1)
    } else {
        i
    }
}

pub proof fn lemma_digits_end(s: Seq<u8>, i: int)
    requires
        0 <= i <= s.len(),
    ensures
        i <= digits_end(s, i) <= s.len(),
        forall|k: int| i <= k < digits_end(s, i) ==> is_digit(s[k]),
        digits_end(s, i) == s.len() || !is_digit(s[digits_end(s, i)]),
    decreases s.len() - i,
{
    if i < s.len() && is_digit(s[i]) {
        lemma_digits_end(s, i + 1);
    }
}

/// A decimal octet as text: one to three digits, no leading zero
/// (except for "0" itself), value at most 255.
pub open spec fn valid_octet_text(t: Seq<u8>) -> bool {
    &&& 1 <= t.len() <= 3
    &&& (forall|k: int| 0 <= k < t.len() ==> is_digit(t[k]))
    &&& (t.len() > 1 ==> t[0] != ZERO)
    &&& decimal_value(t) <= 255
}

/// Scan one octet starting at `i`: its value and the position just past it.
pub open spec fn octet_at(s: Seq<u8>, i: int) -> Option<(int, int)> {
    let e = digits_end(s, i);
    let t = s.subrange(i, e);
    if valid_octet_text(t) {
        Some((decimal_value(t), e))
    } else {
        None
    }
}

/// Scan `n` further ".octet" groups after position `i`, with the value
/// accumulated so far in `acc`.
pub open spec fn quad_rest(s: Seq<u8>, i: int, acc: int, n: nat) -> Option<(int, int)>
    decreases n,
{
    if n == 0 {
        Some((acc, i))
    } else if i < s.len() && s[i] == DOT {
        match octet_at(s, i + 1) {
            Some((v, e)) => quad_rest(s, e, acc * 256 + v, (n - 1) as nat),
            None => None,
        }
    } else {
        None
    }
}

/// Scan a dotted quad starting at `i`: the address value and the position
/// just past it.
pub open spec fn ipv4_at(s: Seq<u8>, i: int) -> Option<(int, int)> {
    match octet_at(s, i) {
        Some((v, e)) => quad_rest(s, e, v, 3),
        None => None,
    }
}

/// An IPv4 literal: exactly a dotted quad, as in "192.0.2.7".
pub open spec fn spec_parse_ipv4(s: Seq<u8>) -> Option<int> {
    match ipv4_at(s, 0) {
        Some((v, e)) => if e == s.len() { Some(v) } else { None },
        None => None,
    }
}

/// An IPv4 CIDR block: a dotted quad, a slash, and a prefix length of at
/// most 32 written like an octet, as in "192.0.2.0/30".
pub open spec fn spec_parse_cidr_v4(s: Seq<u8>) -> Option<(int, int)> {
    match ipv4_at(s, 0) {
        Some((v, e)) => {
            if e < s.len() && s[e] == SLASH {
                match octet_at(s, e + 1) {
                    Some((p, e2)) => {
                        if e2 == s.len() && p <= 32 {
                            Some((v, p))
                        } else {
                            None
                        }
                    },
                    None => None,
                }
            } else {
                None
            }
        },
        None => None,
    }
}

fn is_digit_byte(b: u8) -> (r: bool)
    ensures
        r == is_digit(b),
{
    ZERO <= b && b <= NINE
}

/// Find the end of the run of digits that starts at `i`.
fn scan_digits(s: &[u8], i: usize) -> (j: usize)
    requires
        i <= s@.len(),
    ensures
        j as int == digits_end(s@, i as int),
        i <= j <= s@.len(),
{
    let n = s.len();
    let mut j = i;
    while j < n && is_digit_byte(s[j])
        invariant
            i <= j <= n,
            n == s@.len(),
            digits_end(s@, i as int) == digits_end(s@, j as int),
        decreases n - j,
    {
        j = j + 1;
    }
    j
}

spec fn pow10(n: nat) -> int
    decreases n,
{
    if n == 0 {
        1
    } else {
        10 * pow10((n - 1) as nat)
    }
}

/// Scan one decimal octet starting at `i`.
fn scan_octet(s: &[u8], i: usize) -> (r: Option<(u8, usize)>)
    requires
        i <= s@.len(),
    ensures
        match r {
            Some(p) => {
                &&& octet_at(s@, i as int) == Some((p.0 as int, p.1 as int))
                &&& i < p.1 <= s@.len()
            },
            None => octet_at(s@, i as int) is None,
        },
{
    proof {
        lemma_digits_end(s@, i as int);
    }
    let j = scan_digits(s, i);
    let ghost t = s@.subrange(i as int, j as int);
    let width = j - i;
    if width == 0 || width > 3 {
        return None;
    }
    if width > 1 && s[i] == ZERO {
        assert(t[0] == ZERO);
        return None;
    }
    let mut v: u32 = 0;
    let mut k = i;
    while k < j
        invariant
            i <= k <= j <= s@.len(),
            j - i <= 3,
            v == decimal_value(s@.subrange(i as int, k as int)),
            v < pow10((k - i) as nat),
            forall|m: int| i <= m < j ==> is_digit(s@[m]),
        decreases j - k,
    {
        let d = s[k];
        assert(is_digit(d));
        proof {
            let pre = s@.subrange(i as int, k as int);
            let cur = s@.subrange(i as int, (k + 1) as int);
            assert(cur.drop_last() =~= pre);
            assert(cur.last() == d);
            assert(pow10(((k + 1) - i) as nat) == 10 * pow10((k - i) as nat));
        }
        assert(pow10((k - i) as nat) <= 1000) by {
            reveal_with_fuel(pow10, 5);
        }
        v = v * 10 + ((d - ZERO) as u32);
        k = k + 1;
    }
    if v > 255 {
        assert(decimal_value(t) > 255);
        return None;
    }
    assert(valid_octet_text(t));
    Some((v as u8, j))
}

/// Scan a "." followed by an octet, starting at `pos`.
fn scan_dot_octet(s: &[u8], pos: usize) -> (r: Option<(u8, usize)>)
    requires
        pos <= s@.len(),
    ensures
        match r {
            Some(p) => {
                &&& pos < s@.len() && s@[pos as int] == DOT
                &&& octet_at(s@, pos + 1) == Some((p.0 as int, p.1 as int))
                &&& pos + 1 < p.1 <= s@.len()
            },
            None => pos >= s@.len() || s@[pos as int] != DOT || octet_at(s@, pos + 1) is None,
        },
{
    if pos >= s.len() {
        return None;
    }
    if s[pos] != DOT {
        return None;
    }
    scan_octet(s, pos + 1)
}

/// Scan a dotted quad starting at `i`.
fn scan_quad(s: &[u8], i: usize) -> (r: Option<(u32, usize)>)
    requires
        i <= s@.len(),
    ensures
        match r {
            Some(p) => {
                &&& ipv4_at(s@, i as int) == Some((p.0 as int, p.1 as int))
                &&& i < p.1 <= s@.len()
            },
            None => ipv4_at(s@, i as int) is None,
        },
{
    let (a, e1) = match scan_octet(s, i) {
        Some(p) => p,
        None => {
            return None;
        },
    };
    let (b, e2) = match scan_dot_octet(s, e1) {
        Some(p) => p,
        None => {
            assert(quad_rest(s@, e1 as int, a as int, 3) is None);
            return None;
        },
    };
    let (c, e3) = match scan_dot_octet(s, e2) {
        Some(p) => p,
        None => {
            assert(quad_rest(s@, e2 as int, a as int * 256 + b as int, 2) is None);
            return None;
        },
    };
    let (d, e4) = match scan_dot_octet(s, e3) {
        Some(p) => p,
        None => {
            assert(quad_rest(s@, e3 as int, (a as int * 256 + b as int) * 256 + c as int, 1)
                is None);
            return None;
        },
    };
    let v: u32 = ((a as u32 * 256 + b as u32) * 256 + c as u32) * 256 + d as u32;
    assert(quad_rest(s@, e4 as int, v as int, 0) == Some((v as int, e4 as int)));
    Some((v, e4))
}

/// Parse an IPv4 literal such as "192.0.2.7".
pub fn parse_ipv4(s: &[u8]) -> (r: Option<u32>)
    ensures
        match r {
            Some(v) => spec_parse_ipv4(s@) == Some(v as int),
            None => spec_parse_ipv4(s@) is None,
        },
{
    match scan_quad(s, 0) {
        Some((v, e)) => {
            if e == s.len() {
                Some(v)
            } else {
                None
            }
        },
        None => None,
    }
}

/// Parse an IPv4 CIDR block such as "192.0.2.0/30" into the written
/// address and the prefix length.
pub fn parse_cidr_v4(s: &[u8]) -> (r: Option<(u32, u8)>)
    ensures
        match r {
            Some(p) => spec_parse_cidr_v4(s@) == Some((p.0 as int, p.1 as int)) && p.1 <= 32,
            None => spec_parse_cidr_v4(s@) is None,
        },
{
    let (v, e) = match scan_quad(s, 0) {
        Some(p) => p,
        None => {
            return None;
        },
    };
    if e >= s.len() || s[e] != SLASH {
        return None;
    }
    let (p, e2) = match scan_octet(s, e + 1) {
        Some(p) => p,
        None => {
            return None;
        },
    };
    if e2 == s.len() && p <= 32 {
        Some((v, p))
    } else {
        None
    }
}

/// Whether `b` occurs in `s`.
pub open spec fn contains_byte(s: Seq<u8>, b: u8) -> bool {
    exists|k: int| 0 <= k < s.len() && s[k] == b
}

pub fn find_byte(s: &[u8], b: u8) -> (r: bool)
    ensures
        r == contains_byte(s@, b),
{
    let n = s.len();
    let mut k: usize = 0;
    while k < n
        invariant
            k <= n,
            n == s@.len(),
            forall|m: int| 0 <= m < k ==> s@[m] != b,
        decreases n - k,
    {
        if s[k] == b {
            return true;
        }
        k = k + 1;
    }
    false
}

} // verus!
