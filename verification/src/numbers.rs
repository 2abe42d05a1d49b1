//! Decimal digits: what a digit character is worth, what the decimal
//! rendering of a number looks like, and a verified integer parse with
//! the usual optional sign.

use vstd::prelude::*;

verus! {

/// Holds for the characters `0` through `9`.
pub open spec fn is_digit(c: char) -> bool {
    '0' <= c && c <= '9'
}

/// The value of a digit character.
pub open spec fn digit_val(c: char) -> int {
    c as int - '0' as int
}

/// The digit character of a value between 0 and 9.
pub open spec fn digit_char(d: int) -> char {
    if d == 0 {
        '0'
    } else if d == 1 {
        '1'
    } else if d == 2 {
        '2'
    } else if d == 3 {
        '3'
    } else if d == 4 {
        '4'
    } else if d == 5 {
        '5'
    } else if d == 6 {
        '6'
    } else if d == 7 {
        '7'
    } else if d == 8 {
        '8'
    } else {
        '9'
    }
}

/// Holds when every character of `s` is a digit.
pub open spec fn all_digits(s: Seq<char>) -> bool {
    forall|i: int| 0 <= i < s.len() ==> is_digit(#[trigger] s[i])
}

/// The value of a digit string, most significant digit first.
pub open spec fn digits_val(s: Seq<char>) -> int
    decreases s.len(),
{
    if s.len() == 0 {
        0
    } else {
        digits_val(s.drop_last()) * 10 + digit_val(s.last())
    }
}

/// The decimal rendering of a number: no sign, no leading zero except
/// for zero itself.
pub open spec fn dec_digits(n: nat) -> Seq<char>
    decreases n,
{
    if n < 10 {
        seq![digit_char(n as int)]
    } else {
        dec_digits(n / 10).push(digit_char((n % 10) as int))
    }
}

/// A longer digit string is never worth less than one of its prefixes.
pub proof fn lemma_digits_val_prefix(s: Seq<char>, i: int)
    requires
        all_digits(s),
        0 <= i <= s.len(),
    ensures
        digits_val(s.take(i)) <= digits_val(s),
        digits_val(s) >= 0,
    decreases s.len() - i,
{
    if s.len() == 0 {
        assert(s.take(i) =~= s);
    } else {
        lemma_digits_val_nonneg(s);
        if i == s.len() {
            assert(s.take(i) =~= s);
        } else {
            assert(s.drop_last().take(i) =~= s.take(i));
            assert(all_digits(s.drop_last()));
            lemma_digits_val_prefix(s.drop_last(), i);
            lemma_digits_val_nonneg(s.drop_last());
        }
    }
}

/// A digit string is never worth less than zero.
pub proof fn lemma_digits_val_nonneg(s: Seq<char>)
    requires
        all_digits(s),
    ensures
        digits_val(s) >= 0,
    decreases s.len(),
{
    if s.len() > 0 {
        assert(all_digits(s.drop_last()));
        lemma_digits_val_nonneg(s.drop_last());
    }
}

/// The meaning of a signed 32-bit decimal string: an optional `+` or `-`
/// sign, then one or more digits and nothing else, worth a value that
/// fits the type.
pub open spec fn parse_i32_spec(s: Seq<char>) -> Option<i32> {
    let neg = s.len() > 0 && s[0] == '-';
    let ds = if s.len() > 0 && (s[0] == '-' || s[0] == '+') {
        s.skip(1)
    } else {
        s
    };
    if ds.len() > 0 && all_digits(ds) {
        let v = digits_val(ds);
        if neg {
            if -v >= i32::MIN {
                Some((-v) as i32)
            } else {
                None
            }
        } else {
            if v <= i32::MAX {
                Some(v as i32)
            } else {
                None
            }
        }
    } else {
        None
    }
}

/// Decides whether `c` is a digit.
pub fn is_digit_exec(c: char) -> (r: bool)
    ensures
        r == is_digit(c),
{
    '0' <= c && c <= '9'
}

/// Parses the characters of `v` from `start` on as a signed 32-bit
/// decimal number, exactly as [`parse_i32_spec`] reads them.
pub fn parse_i32_chars(v: &Vec<char>, start: usize) -> (r: Option<i32>)
    requires
        start <= v@.len(),
    ensures
        r == parse_i32_spec(v@.skip(start as int)),
{
    let ghost s = v@.skip(start as int);
    let n = v.len();
    if start == n {
        return None;
    }
    let first = v[start];
    let neg = first == '-';
    let ds_start = if first == '-' || first == '+' {
        start + 1
    } else {
        start
    };
    let ghost ds = v@.skip(ds_start as int);
    proof {
        if first == '-' || first == '+' {
            assert(ds =~= s.skip(1));
        }
    }
    if ds_start == n {
        return None;
    }
    let mut acc: u64 = 0;
    let mut i: usize = ds_start;
    while i < n
        invariant
            ds_start <= i <= n,
            n == v.len(),
            start <= ds_start,
            s == v@.skip(start as int),
            ds == v@.skip(ds_start as int),
            ds.len() > 0,
            if s.len() > 0 && (s[0] == '-' || s[0] == '+') {
                ds == s.skip(1)
            } else {
                ds == s
            },
            all_digits(ds.take(i - ds_start)),
            acc == digits_val(ds.take(i - ds_start)),
            acc <= 0x8000_0000,
        decreases n - i,
    {
        let c = v[i];
        if !is_digit_exec(c) {
            proof {
                assert(ds[i - ds_start] == c);
            }
            return None;
        }
        let d: u64 = (c as u32 as u64) - ('0' as u32 as u64);
        proof {
            assert(ds.take(i + 1 - ds_start).drop_last() =~= ds.take(i - ds_start));
            assert(ds.take(i + 1 - ds_start).last() == c);
        }
        acc = acc * 10 + d;
        i += 1;
        if acc > 0x8000_0000 {
            proof {
                if all_digits(ds) {
                    lemma_digits_val_prefix(ds, i - ds_start);
                }
            }
            return None;
        }
    }
    proof {
        assert(ds.take(n - ds_start) =~= ds);
    }
    if neg {
        if acc == 0x8000_0000 {
            Some(i32::MIN)
        } else {
            Some(-(acc as i32))
        }
    } else {
        if acc == 0x8000_0000 {
            None
        } else {
            Some(acc as i32)
        }
    }
}

} // verus!
