//! Input validation: the rules that decide which domain strings and which
//! IPv4 record strings the registry may store.
//!
//! A domain is accepted when it is 1 to 256 bytes long, contains at least one
//! dot, and neither starts nor ends with a dot. A record is accepted when it
//! is 1 to 15 bytes long and splits on dots into exactly four non-empty
//! parts, each a run of decimal digits (no sign, no whitespace) whose value is
//! at most 255.

use vstd::prelude::*;

verus! {

/// The byte value of `.`, the only structural character of both rules.
pub const DOT: u8 = 0x2e;

/// Longest domain the registry stores, in bytes.
pub const MAX_DOMAIN_LEN: usize = 256;

/// Longest record the registry stores, in bytes (`"255.255.255.255"`).
pub const MAX_RECORD_LEN: usize = 15;

/// An ASCII decimal digit.
pub open spec fn is_digit(b: u8) -> bool {
    0x30 <= b <= 0x39
}

/// Every byte of `s` is an ASCII decimal digit.
pub open spec fn all_digits(s: Seq<u8>) -> bool {
    forall|i: int| 0 <= i < s.len() ==> is_digit(#[trigger] s[i])
}

/// The numeric contribution of one byte read as a decimal digit.
pub open spec fn digit_val(b: u8) -> int {
    if is_digit(b) {
        b - 0x30
    } else {
        0
    }
}

/// The value of `s` read as an unsigned decimal numeral.
pub open spec fn octet_value(s: Seq<u8>) -> int
    decreases s.len(),
{
    if s.len() == 0 {
        0
    } else {
        octet_value(s.drop_last()) * 10 + digit_val(s.last())
    }
}

/// One part of a dotted quad: non-empty, digits only, value at most 255.
pub open spec fn valid_octet(s: Seq<u8>) -> bool {
    &&& 1 <= s.len()
    &&& all_digits(s)
    &&& octet_value(s) <= 255
}

/// `i`, `j`, `k` are dot positions that split `s` into four valid octets.
/// Because an octet holds digits only, such positions are the only dots of
/// `s`, so this says exactly: splitting `s` by dots yields four non-empty
/// parts, each a decimal numeral of value at most 255.
pub open spec fn ip_split_at(s: Seq<u8>, i: int, j: int, k: int) -> bool {
    &&& 0 <= i < j < k < s.len()
    &&& s[i] == DOT
    &&& s[j] == DOT
    &&& s[k] == DOT
    &&& valid_octet(s.subrange(0, i))
    &&& valid_octet(s.subrange(i + 1, j))
    &&& valid_octet(s.subrange(j + 1, k))
    &&& valid_octet(s.subrange(k + 1, s.len() as int))
}

/// The record acceptance rule: bounded length and a strict dotted quad.
pub open spec fn ip_valid(s: Seq<u8>) -> bool {
    &&& 1 <= s.len() <= MAX_RECORD_LEN
    &&& exists|i: int, j: int, k: int| ip_split_at(s, i, j, k)
}

/// The domain acceptance rule: bounded length, at least one dot, and no dot
/// at either end.
pub open spec fn domain_valid(s: Seq<u8>) -> bool {
    &&& 1 <= s.len() <= MAX_DOMAIN_LEN
    &&& exists|i: int| 0 <= i < s.len() && s[i] == DOT
    &&& s[0] != DOT
    &&& s[s.len() - 1] != DOT
}

/// A decimal numeral never shrinks when digits are appended on the right.
proof fn lemma_octet_value_extend(s: Seq<u8>, start: int, p: int, end: int)
    requires
        0 <= start <= p <= end <= s.len(),
    ensures
        octet_value(s.subrange(start, end)) >= octet_value(s.subrange(start, p)),
        octet_value(s.subrange(start, p)) >= 0,
    decreases end - p,
{
    lemma_octet_value_nonneg(s.subrange(start, p));
    if p < end {
        assert(s.subrange(start, p + 1) =~= s.subrange(start, p).push(s[p]));
        assert(s.subrange(start, p + 1).drop_last() =~= s.subrange(start, p));
        assert(octet_value(s.subrange(start, p + 1)) == octet_value(s.subrange(start, p)) * 10
            + digit_val(s[p]));
        lemma_octet_value_extend(s, start, p + 1, end);
    }
}

/// A decimal value is never negative.
proof fn lemma_octet_value_nonneg(s: Seq<u8>)
    ensures
        octet_value(s) >= 0,
    decreases s.len(),
{
    if s.len() > 0 {
        lemma_octet_value_nonneg(s.drop_last());
    }
}

/// Inside a valid split, every dot of `s` is one of the three split points.
proof fn lemma_split_dots(s: Seq<u8>, i: int, j: int, k: int, p: int)
    requires
        ip_split_at(s, i, j, k),
        0 <= p < s.len(),
        s[p] == DOT,
    ensures
        p == i || p == j || p == k,
{
    if p < i {
        assert(is_digit(s.subrange(0, i)[p]));
    } else if i < p && p < j {
        assert(is_digit(s.subrange(i + 1, j)[p - i - 1]));
    } else if j < p && p < k {
        assert(is_digit(s.subrange(j + 1, k)[p - j - 1]));
    } else if k < p {
        assert(is_digit(s.subrange(k + 1, s.len() as int)[p - k - 1]));
    }
}

/// Checks that `s[start..end]` is a non-empty run of digits whose decimal
/// value is at most 255.
fn check_octet(s: &Vec<u8>, start: usize, end: usize) -> (r: bool)
    requires
        start <= end <= s@.len(),
    ensures
        r == valid_octet(s@.subrange(start as int, end as int)),
{
    if start == end {
        return false;
    }
    let mut value: u64 = 0;
    let mut p: usize = start;
    while p < end
        invariant
            start <= p <= end <= s@.len(),
            all_digits(s@.subrange(start as int, p as int)),
            value == octet_value(s@.subrange(start as int, p as int)),
            value <= 255,
        decreases end - p,
    {
        let b = s[p];
        if b < 0x30 || b > 0x39 {
            assert(s@.subrange(start as int, end as int)[p - start] == s@[p as int]);
            return false;
        }
        proof {
            assert(s@.subrange(start as int, p + 1) =~= s@.subrange(start as int, p as int).push(
                s@[p as int],
            ));
            assert(s@.subrange(start as int, p + 1).drop_last() =~= s@.subrange(
                start as int,
                p as int,
            ));
        }
        value = value * 10 + ((b - 0x30) as u64);
        p = p + 1;
        if value > 255 {
            proof {
                lemma_octet_value_extend(s@, start as int, p as int, end as int);
            }
            return false;
        }
    }
    true
}

/// Decides the record acceptance rule of [`ip_valid`].
pub fn validate_record(s: &Vec<u8>) -> (r: bool)
    ensures
        r == ip_valid(s@),
{
    if s.len() < 1 || s.len() > MAX_RECORD_LEN {
        return false;
    }
    let mut d0: usize = 0;
    let mut d1: usize = 0;
    let mut d2: usize = 0;
    let mut count: usize = 0;
    let mut idx: usize = 0;
    while idx < s.len()
        invariant
            0 <= idx <= s@.len(),
            1 <= s@.len() <= MAX_RECORD_LEN,
            count <= 3,
            count > 0 ==> d0 < idx && s@[d0 as int] == DOT,
            count > 1 ==> d0 < d1 && d1 < idx && s@[d1 as int] == DOT,
            count > 2 ==> d1 < d2 && d2 < idx && s@[d2 as int] == DOT,
            forall|p: int|
                0 <= p < idx && s@[p] == DOT ==> ((count > 0 && p == d0) || (count > 1 && p == d1)
                    || (count > 2 && p == d2)),
        decreases s@.len() - idx,
    {
        if s[idx] == DOT {
            if count == 0 {
                d0 = idx;
            } else if count == 1 {
                d1 = idx;
            } else if count == 2 {
                d2 = idx;
            } else {
                // A fourth dot: no split into four digit-only octets exists.
                proof {
                    if ip_valid(s@) {
                        let (i, j, k): (int, int, int) = choose|i: int, j: int, k: int|
                            ip_split_at(s@, i, j, k);
                        lemma_split_dots(s@, i, j, k, d0 as int);
                        lemma_split_dots(s@, i, j, k, d1 as int);
                        lemma_split_dots(s@, i, j, k, d2 as int);
                        lemma_split_dots(s@, i, j, k, idx as int);
                        assert(false);
                    }
                }
                return false;
            }
            count = count + 1;
        }
        idx = idx + 1;
    }
    if count != 3 {
        proof {
            if ip_valid(s@) {
                let (i, j, k): (int, int, int) = choose|i: int, j: int, k: int|
                    ip_split_at(s@, i, j, k);
                assert(false);
            }
        }
        return false;
    }
    let ok0 = check_octet(s, 0, d0);
    let ok1 = check_octet(s, d0 + 1, d1);
    let ok2 = check_octet(s, d1 + 1, d2);
    let ok3 = check_octet(s, d2 + 1, s.len());
    let ok = ok0 && ok1 && ok2 && ok3;
    proof {
        if ok {
            assert(ip_split_at(s@, d0 as int, d1 as int, d2 as int));
        } else {
            if ip_valid(s@) {
                let (i, j, k): (int, int, int) = choose|i: int, j: int, k: int|
                    ip_split_at(s@, i, j, k);
                lemma_split_dots(s@, i, j, k, d0 as int);
                lemma_split_dots(s@, i, j, k, d1 as int);
                lemma_split_dots(s@, i, j, k, d2 as int);
                assert(i == d0 && j == d1 && k == d2);
                assert(false);
            }
        }
    }
    ok
}

/// Decides the domain acceptance rule of [`domain_valid`].
pub fn validate_domain(s: &Vec<u8>) -> (r: bool)
    ensures
        r == domain_valid(s@),
{
    if s.len() < 1 || s.len() > MAX_DOMAIN_LEN {
        return false;
    }
    if s[0] == DOT || s[s.len() - 1] == DOT {
        return false;
    }
    let mut idx: usize = 0;
    while idx < s.len()
        invariant
            0 <= idx <= s@.len(),
            1 <= s@.len() <= MAX_DOMAIN_LEN,
            s@[0] != DOT,
            s@[s@.len() - 1] != DOT,
            forall|p: int| 0 <= p < idx ==> s@[p] != DOT,
        decreases s@.len() - idx,
    {
        if s[idx] == DOT {
            assert(0 <= idx < s@.len() && s@[idx as int] == DOT);
            return true;
        }
        idx = idx + 1;
    }
    false
}

} // verus!
