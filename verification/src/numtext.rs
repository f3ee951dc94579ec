//! Decimal numbers in text: formatting and parsing with exact specifications.

use vstd::prelude::*;

verus! {

/// An ASCII decimal digit.
pub open spec fn is_digit(c: char) -> bool {
    '0' <= c && c <= '9'
}

/// The value of an ASCII decimal digit.
pub open spec fn digit_value(c: char) -> int {
    (c as int) - ('0' as int)
}

/// The ASCII digit for a value below ten.
pub open spec fn digit_char(d: int) -> char {
    if d == 0 {
        '0'
    } else if d == 1 {
        '1'
    } else if d == 2 {
        '2'
    } else if d == 3 {
        '3'
    } else if d == 4 {
        '4'
    } else if d == 5 {
        '5'
    } else if d == 6 {
        '6'
    } else if d == 7 {
        '7'
    } else if d == 8 {
        '8'
    } else {
        '9'
    }
}

/// Decimal notation of `n` without leading zeros, as `Display` writes integers.
pub open spec fn dec(n: nat) -> Seq<char>
    decreases n,
{
    if n < 10 {
        seq![digit_char(n as int)]
    } else {
        dec(n / 10).push(digit_char((n % 10) as int))
    }
}

/// Every character of `s` is an ASCII digit.
pub open spec fn all_digits(s: Seq<char>) -> bool {
    forall|i: int| 0 <= i < s.len() ==> is_digit(#[trigger] s[i])
}

/// The number that a run of decimal digits denotes.
pub open spec fn digits_value(s: Seq<char>) -> int
    decreases s.len(),
{
    if s.len() == 0 {
        0
    } else {
        digits_value(s.drop_last()) * 10 + digit_value(s.last())
    }
}

/// `str::parse` for an unsigned integer type whose largest value is `max`:
/// an optional `+`, then one or more ASCII digits denoting at most `max`.
pub open spec fn parse_unsigned(s: Seq<char>, max: int) -> Option<int> {
    let d = if s.len() > 0 && s[0] == '+' {
        s.drop_first()
    } else {
        s
    };
    if d.len() > 0 && all_digits(d) && digits_value(d) <= max {
        Some(digits_value(d))
    } else {
        None
    }
}

/// Reading digits left to right from position `k` with `acc` read so far:
/// `None` when all digits are read within `max`, `Some(true)` when the value
/// passes `max` first, `Some(false)` when a non-digit comes first.
pub open spec fn scan_fault(d: Seq<char>, max: int, k: int, acc: int) -> Option<bool>
    decreases d.len() - k,
{
    if k < 0 || k >= d.len() {
        None
    } else if !is_digit(d[k]) {
        Some(false)
    } else if acc * 10 + digit_value(d[k]) > max {
        Some(true)
    } else {
        scan_fault(d, max, k + 1, acc * 10 + digit_value(d[k]))
    }
}

/// The message of the `ParseIntError` that `str::parse` gives for text it
/// refuses as an unsigned integer of largest value `max`.
pub open spec fn parse_error_text(s: Seq<char>, max: int) -> Seq<char> {
    if s.len() == 0 {
        "cannot parse integer from empty string"@
    } else {
        let d = if s[0] == '+' {
            s.drop_first()
        } else {
            s
        };
        if d.len() == 0 {
            "invalid digit found in string"@
        } else {
            match scan_fault(d, max, 0, 0) {
                Some(true) => "number too large to fit in target type"@,
                _ => "invalid digit found in string"@,
            }
        }
    }
}

pub proof fn lemma_digit_char(d: int)
    requires
        0 <= d < 10,
    ensures
        is_digit(digit_char(d)),
        digit_value(digit_char(d)) == d,
{
}

/// Decimal notation is a nonempty run of digits that denotes `n`, with no
/// leading zero.
pub proof fn lemma_dec(n: nat)
    ensures
        dec(n).len() >= 1,
        all_digits(dec(n)),
        digits_value(dec(n)) == n,
        dec(n)[0] == '0' ==> n == 0,
        dec(n)[0] != '+',
    decreases n,
{
    if n < 10 {
        lemma_digit_char(n as int);
        assert(dec(n).drop_last() =~= Seq::<char>::empty());
        assert(digits_value(Seq::<char>::empty()) == 0);
        assert(dec(n).last() == digit_char(n as int));
        assert(digits_value(dec(n)) == digits_value(dec(n).drop_last()) * 10 + digit_value(dec(n).last()));
    } else {
        lemma_dec(n / 10);
        lemma_digit_char((n % 10) as int);
        let s = dec(n);
        assert(s.drop_last() =~= dec(n / 10));
        assert forall|i: int| 0 <= i < s.len() implies is_digit(#[trigger] s[i]) by {
            if i < s.len() - 1 {
                assert(s[i] == dec(n / 10)[i]);
            }
        }
        assert(s[0] == dec(n / 10)[0]);
    }
}

/// Different numbers have different decimal notations.
pub proof fn lemma_dec_injective(a: nat, b: nat)
    requires
        dec(a) == dec(b),
    ensures
        a == b,
{
    lemma_dec(a);
    lemma_dec(b);
}

/// Decimal notation parses back to the number it was written from.
pub proof fn lemma_parse_dec(n: nat, max: int)
    requires
        n <= max,
    ensures
        parse_unsigned(dec(n), max) == Some(n as int),
{
    lemma_dec(n);
}

/// A prefix of a run of digits denotes no more than the whole run.
pub proof fn lemma_digits_value_prefix(s: Seq<char>, k: int)
    requires
        all_digits(s),
        0 <= k <= s.len(),
    ensures
        0 <= digits_value(s.take(k)) <= digits_value(s),
    decreases s.len() - k,
{
    if k < s.len() {
        lemma_digits_value_prefix(s, k + 1);
        assert(s.take(k + 1).drop_last() =~= s.take(k));
        assert(is_digit(s[k]));
    } else {
        assert(s.take(k) =~= s);
        lemma_digits_value_nonneg(s);
    }
}

pub proof fn lemma_digits_value_nonneg(s: Seq<char>)
    requires
        all_digits(s),
    ensures
        digits_value(s) >= 0,
    decreases s.len(),
{
    if s.len() > 0 {
        assert(all_digits(s.drop_last())) by {
            assert forall|i: int| 0 <= i < s.drop_last().len() implies is_digit(
                #[trigger] s.drop_last()[i],
            ) by {
                assert(s.drop_last()[i] == s[i]);
            }
        }
        lemma_digits_value_nonneg(s.drop_last());
        assert(is_digit(s[s.len() - 1]));
    }
}

/// The digit character for a value below ten.
pub fn digit_of(d: u64) -> (c: char)
    requires
        d < 10,
    ensures
        c == digit_char(d as int),
{
    if d == 0 {
        '0'
    } else if d == 1 {
        '1'
    } else if d == 2 {
        '2'
    } else if d == 3 {
        '3'
    } else if d == 4 {
        '4'
    } else if d == 5 {
        '5'
    } else if d == 6 {
        '6'
    } else if d == 7 {
        '7'
    } else if d == 8 {
        '8'
    } else {
        '9'
    }
}

/// Decimal notation of `n`.
pub fn dec_chars(n: u64) -> (r: Vec<char>)
    ensures
        r@ == dec(n as nat),
    decreases n,
{
    if n < 10 {
        let mut r: Vec<char> = Vec::new();
        r.push(digit_of(n));
        assert(r@ =~= seq![digit_char(n as int)]);
        r
    } else {
        let mut r = dec_chars(n / 10);
        r.push(digit_of(n % 10));
        r
    }
}

/// Parses an unsigned decimal number no larger than `max`, as `str::parse`
/// does for the unsigned integer type whose largest value is `max`.
pub fn parse_unsigned_chars(s: &Vec<char>, max: u64) -> (r: Option<u64>)
    requires
        max <= u32::MAX,
    ensures
        r matches Some(v) ==> parse_unsigned(s@, max as int) == Some(v as int),
        r is None ==> parse_unsigned(s@, max as int) is None,
{
    let n = s.len();
    let start: usize = if n > 0 && s[0] == '+' {
        1
    } else {
        0
    };
    let ghost d = if s@.len() > 0 && s@[0] == '+' {
        s@.drop_first()
    } else {
        s@
    };
    assert(d =~= s@.skip(start as int));
    if start >= n {
        return None;
    }
    let mut acc: u64 = 0;
    let mut i: usize = start;
    while i < n
        invariant
            start <= i <= n == s.len(),
            d == s@.skip(start as int),
            d == (if s@.len() > 0 && s@[0] == '+' {
                s@.drop_first()
            } else {
                s@
            }),
            all_digits(d.take(i - start)),
            acc as int == digits_value(d.take(i - start)),
            acc <= max <= u32::MAX,
        decreases n - i,
    {
        let c = s[i];
        if !('0' <= c && c <= '9') {
            assert(d[i - start] == c);
            assert(!is_digit(d[i - start]));
            assert(!all_digits(d));
            return None;
        }
        let dv = (c as u64) - ('0' as u64);
        assert(d.take(i - start + 1).drop_last() =~= d.take(i - start));
        assert(d.take(i - start + 1).last() == c);
        assert(all_digits(d.take(i - start + 1))) by {
            assert forall|k: int| 0 <= k < i - start + 1 implies is_digit(
                #[trigger] d.take(i - start + 1)[k],
            ) by {
                if k < i - start {
                    assert(d.take(i - start + 1)[k] == d.take(i - start)[k]);
                }
            }
        }
        acc = acc * 10 + dv;
        if acc > max {
            proof {
                if all_digits(d) {
                    lemma_digits_value_prefix(d, i - start + 1);
                    assert(digits_value(d) > max);
                }
            }
            return None;
        }
        i += 1;
    }
    assert(d.take(n - start) =~= d);
    Some(acc)
}

/// `str::parse` for an unsigned integer type whose largest value is `max`,
/// with the message of the error it gives.
pub fn parse_unsigned_detailed(s: &Vec<char>, max: u64) -> (r: Result<u64, String>)
    requires
        max <= u32::MAX,
    ensures
        r matches Ok(v) ==> parse_unsigned(s@, max as int) == Some(v as int),
        r matches Err(e) ==> parse_unsigned(s@, max as int) is None && e@ == parse_error_text(
            s@,
            max as int,
        ),
{
    let n = s.len();
    if n == 0 {
        return Err(crate::text::owned("cannot parse integer from empty string"));
    }
    let start: usize = if s[0] == '+' {
        1
    } else {
        0
    };
    let ghost d = if s@[0] == '+' {
        s@.drop_first()
    } else {
        s@
    };
    assert(d =~= s@.skip(start as int));
    if start >= n {
        return Err(crate::text::owned("invalid digit found in string"));
    }
    let mut acc: u64 = 0;
    let mut i: usize = start;
    while i < n
        invariant
            start <= i <= n == s.len(),
            n > 0,
            d == s@.skip(start as int),
            d == (if s@[0] == '+' {
                s@.drop_first()
            } else {
                s@
            }),
            all_digits(d.take(i - start)),
            acc as int == digits_value(d.take(i - start)),
            acc <= max <= u32::MAX,
            scan_fault(d, max as int, 0, 0) == scan_fault(d, max as int, i - start, acc as int),
        decreases n - i,
    {
        let c = s[i];
        assert(d[i - start] == c);
        if !('0' <= c && c <= '9') {
            assert(!is_digit(d[i - start]));
            assert(!all_digits(d));
            return Err(crate::text::owned("invalid digit found in string"));
        }
        let dv = (c as u64) - ('0' as u64);
        assert(d.take(i - start + 1).drop_last() =~= d.take(i - start));
        assert(d.take(i - start + 1).last() == c);
        assert(all_digits(d.take(i - start + 1))) by {
            assert forall|k: int| 0 <= k < i - start + 1 implies is_digit(
                #[trigger] d.take(i - start + 1)[k],
            ) by {
                if k < i - start {
                    assert(d.take(i - start + 1)[k] == d.take(i - start)[k]);
                }
            }
        }
        acc = acc * 10 + dv;
        if acc > max {
            proof {
                if all_digits(d) {
                    lemma_digits_value_prefix(d, i - start + 1);
                    assert(digits_value(d) > max);
                }
            }
            return Err(crate::text::owned("number too large to fit in target type"));
        }
        i += 1;
    }
    assert(d.take(n - start) =~= d);
    Ok(acc)
}

} // verus!
