//! IPv4 addresses and the dotted-decimal literal grammar.
//!
//! A backend value for an `A` query must be a dotted-decimal IPv4 literal:
//! four decimal numerals separated by `.`, each between 0 and 255, written
//! with no leading zero (except the numeral `0` itself).  The grammar is
//! stated by [`ipv4_of`], a deterministic parse over the character sequence,
//! and [`parse_ipv4`] is proved to return exactly that parse.

use vstd::prelude::*;

verus! {

/// An IPv4 address as its four octets, most significant first.
#[derive(Clone, Copy, Debug, PartialEq, Eq, Structural)]
pub struct Ipv4Address {
    pub a: u8,
    pub b: u8,
    pub c: u8,
    pub d: u8,
}

/// Whether `c` is a decimal digit.
pub open spec fn is_digit(c: char) -> bool {
    '0' <= c && c <= '9'
}

/// The numeric value of a decimal digit.
pub open spec fn digit_value(c: char) -> int {
    c as int - '0' as int
}

/// Length of the run of decimal digits in `s` starting at `i`.
pub open spec fn digit_run_len(s: Seq<char>, i: int) -> nat
    decreases s.len() - i,
{
    if i < 0 || i >= s.len() || !is_digit(s[i]) {
        0
    } else {
        (1 + digit_run_len(s, i + 1)) as nat
    }
}

/// The value of the decimal numeral `s[start..end]`, read left to right.
pub open spec fn dec_value(s: Seq<char>, start: int, end: int) -> int
    decreases end - start,
{
    if start >= end {
        0
    } else {
        dec_value(s, start, end - 1) * 10 + digit_value(s[end - 1])
    }
}

/// Parse one dotted-decimal octet of `s` at `i`: the maximal digit run,
/// which must be 1 to 3 digits, without a leading zero unless it is `0`
/// itself, and of value at most 255.  Returns the value and the index one
/// past the run.
pub open spec fn octet_at(s: Seq<char>, i: int) -> Option<(int, int)> {
    let n = digit_run_len(s, i);
    if n < 1 || n > 3 {
        None
    } else if n > 1 && s[i] == '0' {
        None
    } else if dec_value(s, i, i + n) > 255 {
        None
    } else {
        Some((dec_value(s, i, i + n), i + n))
    }
}

/// The dotted-decimal IPv4 grammar: four octets joined by `.`, spanning the
/// whole of `s`.  `None` when `s` is not such a literal.
pub open spec fn ipv4_of(s: Seq<char>) -> Option<Ipv4Address> {
    match octet_at(s, 0) {
        None => None,
        Some((a, i1)) => {
            if !(i1 < s.len() && s[i1] == '.') {
                None
            } else {
                match octet_at(s, i1 + 1) {
                    None => None,
                    Some((b, i2)) => {
                        if !(i2 < s.len() && s[i2] == '.') {
                            None
                        } else {
                            match octet_at(s, i2 + 1) {
                                None => None,
                                Some((c, i3)) => {
                                    if !(i3 < s.len() && s[i3] == '.') {
                                        None
                                    } else {
                                        match octet_at(s, i3 + 1) {
                                            None => None,
                                            Some((d, i4)) => {
                                                if i4 != s.len() {
                                                    None
                                                } else {
                                                    Some(Ipv4Address {
                                                        a: a as u8,
                                                        b: b as u8,
                                                        c: c as u8,
                                                        d: d as u8,
                                                    })
                                                }
                                            },
                                        }
                                    }
                                },
                            }
                        }
                    },
                }
            }
        },
    }
}

/// Parse the maximal digit run of `v` at `i` as one octet, as `octet_at`
/// states it.
fn parse_octet(v: &Vec<char>, i: usize) -> (r: Option<(u8, usize)>)
    requires
        i <= v@.len(),
    ensures
        match r {
            Some((val, next)) => octet_at(v@, i as int) == Some((val as int, next as int))
                && i < next <= v@.len(),
            None => octet_at(v@, i as int) is None,
        },
{
    let ghost s = v@;
    let mut j: usize = i;
    let mut value: u32 = 0;
    while j < v.len() && v[j] >= '0' && v[j] <= '9'
        invariant
            s == v@,
            i <= j <= v@.len(),
            j - i <= 3,
            forall|k: int| i <= k < j ==> is_digit(s[k]),
            j - i <= 3 ==> value == dec_value(s, i as int, j as int),
            value <= 255,
        decreases v@.len() - j,
    {
        if j - i >= 3 {
            // A fourth digit: the run is too long whatever follows.
            proof {
                assert(is_digit(s[j as int]));
                lemma_digit_run_len_at_least(s, i as int, j as int + 1);
            }
            return None;
        }
        let d: u32 = (v[j] as u32) - ('0' as u32);
        value = value * 10 + d;
        if value > 255 {
            proof {
                assert(is_digit(s[j as int]));
                lemma_digit_run_len_at_least(s, i as int, j as int + 1);
                let n = digit_run_len(s, i as int);
                lemma_digit_run_extends(s, i as int, i as int + n);
                assert(value == dec_value(s, i as int, j as int + 1));
                lemma_dec_value_grows(s, i as int, j as int + 1, i as int + n);
            }
            return None;
        }
        j += 1;
    }
    proof {
        lemma_digit_run_len_exact(s, i as int, j as int);
    }
    if j == i {
        return None;
    }
    if j - i > 1 && v[i] == '0' {
        return None;
    }
    Some((value as u8, j))
}

/// Digits at every index in `[i, j)` make the run at `i` at least `j - i` long.
proof fn lemma_digit_run_len_at_least(s: Seq<char>, i: int, j: int)
    requires
        0 <= i <= j <= s.len(),
        forall|k: int| i <= k < j ==> is_digit(s[k]),
    ensures
        digit_run_len(s, i) >= j - i,
    decreases j - i,
{
    if i < j {
        assert(is_digit(s[i]));
        lemma_digit_run_len_at_least(s, i + 1, j);
        assert(digit_run_len(s, i) == 1 + digit_run_len(s, i + 1));
    }
}

/// Digits exactly on `[i, j)` and a non-digit (or the end) at `j` make the
/// run at `i` exactly `j - i` long.
proof fn lemma_digit_run_len_exact(s: Seq<char>, i: int, j: int)
    requires
        0 <= i <= j <= s.len(),
        forall|k: int| i <= k < j ==> is_digit(s[k]),
        j == s.len() || !is_digit(s[j]),
    ensures
        digit_run_len(s, i) == j - i,
    decreases j - i,
{
    if i < j {
        assert(is_digit(s[i]));
        lemma_digit_run_len_exact(s, i + 1, j);
    }
}

/// The digit run at `i` covers digits only.
proof fn lemma_digit_run_extends(s: Seq<char>, i: int, j: int)
    requires
        0 <= i <= j,
        i <= s.len(),
        j <= i + digit_run_len(s, i),
    ensures
        j <= s.len(),
        forall|k: int| i <= k < j ==> is_digit(s[k]),
    decreases j - i,
{
    if i < j {
        assert(digit_run_len(s, i) >= 1);
        assert(is_digit(s[i]));
        lemma_digit_run_extends(s, i + 1, j);
        assert(forall|k: int| i <= k < j ==> is_digit(s[k])) by {
            assert(is_digit(s[i]));
        }
    }
}

/// Appending digits to a numeral never shrinks its value.
proof fn lemma_dec_value_grows(s: Seq<char>, i: int, j: int, k: int)
    requires
        0 <= i <= j <= k <= s.len(),
        forall|m: int| i <= m < k ==> is_digit(s[m]),
        dec_value(s, i, j) >= 0,
    ensures
        dec_value(s, i, k) >= dec_value(s, i, j),
    decreases k - j,
{
    if j < k {
        assert(dec_value(s, i, j + 1) == dec_value(s, i, j) * 10 + digit_value(s[j]));
        lemma_dec_value_nonneg(s, i, j);
        lemma_dec_value_grows(s, i, j + 1, k);
    }
}

/// A numeral of digits has a non-negative value.
proof fn lemma_dec_value_nonneg(s: Seq<char>, i: int, j: int)
    requires
        0 <= i <= j <= s.len(),
        forall|m: int| i <= m < j ==> is_digit(s[m]),
    ensures
        dec_value(s, i, j) >= 0,
    decreases j - i,
{
    if i < j {
        lemma_dec_value_nonneg(s, i, j - 1);
    }
}

/// Parse `v` as a dotted-decimal IPv4 literal, exactly as [`ipv4_of`]
/// states the grammar.
pub fn parse_ipv4(v: &Vec<char>) -> (r: Option<Ipv4Address>)
    ensures
        r == ipv4_of(v@),
{
    let o1 = parse_octet(v, 0);
    let (a, i1) = match o1 {
        Some(p) => p,
        None => { return None; },
    };
    if !(i1 < v.len() && v[i1] == '.') {
        return None;
    }
    let o2 = parse_octet(v, i1 + 1);
    let (b, i2) = match o2 {
        Some(p) => p,
        None => { return None; },
    };
    if !(i2 < v.len() && v[i2] == '.') {
        return None;
    }
    let o3 = parse_octet(v, i2 + 1);
    let (c, i3) = match o3 {
        Some(p) => p,
        None => { return None; },
    };
    if !(i3 < v.len() && v[i3] == '.') {
        return None;
    }
    let o4 = parse_octet(v, i3 + 1);
    let (d, i4) = match o4 {
        Some(p) => p,
        None => { return None; },
    };
    if i4 != v.len() {
        return None;
    }
    Some(Ipv4Address { a, b, c, d })
}

} // verus!
