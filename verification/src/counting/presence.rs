//! When Cairn was last seen running.
//!
//! While it runs, Cairn keeps a mark with the time it was last seen; at
//! start, the time between that mark and now is a period nobody was
//! watching. The application reads and writes the mark's file; this reads
//! what it says.
use vstd::prelude::*;
use crate::domain::dates::digits_value;
use crate::text::{all_digits, chars_of, is_digit, is_digit_char, trim, trim_chars};

verus! {

/// The whole number `text` spells, as Rust reads an `i64`: an optional `+`
/// or `-`, then one or more ASCII digits, within the range of `i64`.
pub open spec fn i64_value(text: Seq<char>) -> Option<int> {
    let signed = text.len() > 0 && (text[0] == '-' || text[0] == '+');
    let digits = if signed {
        text.drop_first()
    } else {
        text
    };
    let value = if signed && text[0] == '-' {
        -digits_value(digits)
    } else {
        digits_value(digits)
    };
    if digits.len() == 0 || !all_digits(digits) || value < i64::MIN || value > i64::MAX {
        None
    } else {
        Some(value)
    }
}

/// When Cairn was last seen, as the mark's `text` says it: the number it
/// holds once trimmed, when that is a positive `i64`. An unreadable or
/// nonsense mark says nothing, rather than a gap since the epoch: the honest
/// answer to "what happened while I was not looking" is never fifty years.
pub open spec fn last_seen_of(text: Seq<char>) -> Option<int> {
    match i64_value(trim(text)) {
        Some(value) => if value > 0 {
            Some(value)
        } else {
            None
        },
        None => None,
    }
}

/// Digits spell no negative number.
proof fn lemma_digits_nonnegative(s: Seq<char>)
    requires
        all_digits(s),
    ensures
        digits_value(s) >= 0,
    decreases s.len(),
{
    if s.len() > 0 {
        lemma_digits_nonnegative(s.drop_last());
    }
}

/// More digits never spell a smaller number.
proof fn lemma_digits_prefix(s: Seq<char>, k: int)
    requires
        all_digits(s),
        0 <= k <= s.len(),
    ensures
        digits_value(s.subrange(0, k)) <= digits_value(s),
    decreases s.len(),
{
    if k < s.len() {
        let front = s.drop_last();
        assert(all_digits(front));
        lemma_digits_prefix(front, k);
        assert(front.subrange(0, k) =~= s.subrange(0, k));
        lemma_digits_nonnegative(front);
    } else {
        assert(s.subrange(0, k) =~= s);
    }
}

/// When Cairn was last seen, read from the text of its mark; nothing when
/// the mark does not hold a positive whole number.
pub fn last_seen(text: &str) -> (seen: Option<i64>)
    ensures
        match seen {
            Some(at) => last_seen_of(text@) == Some(at as int),
            None => last_seen_of(text@) is None,
        },
{
    let chars = chars_of(text);
    let t = trim_chars(chars.as_slice());
    let ghost s = t@;
    if t.len() == 0 {
        return None;
    }
    if t[0] == '-' {
        proof {
            if all_digits(s.drop_first()) {
                lemma_digits_nonnegative(s.drop_first());
            }
        }
        return None;
    }
    let start: usize = if t[0] == '+' {
        1
    } else {
        0
    };
    let ghost digits = s.subrange(start as int, s.len() as int);
    proof {
        if start == 1 {
            assert(digits =~= s.drop_first());
        } else {
            assert(digits =~= s);
        }
    }
    if start == t.len() {
        return None;
    }
    let mut acc: u64 = 0;
    let mut i: usize = start;
    while i < t.len()
        invariant
            start <= i <= t@.len(),
            s == t@,
            s == trim(text@),
            s.len() > 0,
            s[0] != '-',
            (start == 1) == (s[0] == '+'),
            start <= 1,
            digits == s.subrange(start as int, s.len() as int),
            all_digits(s.subrange(start as int, i as int)),
            acc as int == digits_value(s.subrange(start as int, i as int)),
            acc <= i64::MAX,
        decreases t.len() - i,
    {
        let c = t[i];
        if !is_digit_char(c) {
            proof {
                assert(digits[i - start] == c);
            }
            return None;
        }
        let d: u64 = (c as u32 - 48) as u64;
        let ghost before = s.subrange(start as int, i as int);
        let ghost after = s.subrange(start as int, i + 1);
        proof {
            assert(after.drop_last() =~= before);
            assert(after.last() == c);
            assert(all_digits(after));
            assert(d == c as int - 48);
            assert(digits_value(after) == acc * 10 + d);
        }
        if acc > (9223372036854775807u64 - d) / 10 {
            proof {
                assert(acc * 10 + d > 9223372036854775807) by (nonlinear_arith)
                    requires
                        acc > (9223372036854775807u64 - d) / 10,
                        d <= 9,
                ;
                if all_digits(digits) {
                    assert(digits.subrange(0, i + 1 - start) =~= after);
                    lemma_digits_prefix(digits, i + 1 - start);
                    assert(digits_value(digits) > i64::MAX);
                }
                if start == 1 {
                    assert(digits =~= s.drop_first());
                } else {
                    assert(digits =~= s);
                }
                assert(i64_value(s) is None);
            }
            return None;
        }
        proof {
            assert(acc * 10 + d <= 9223372036854775807) by (nonlinear_arith)
                requires
                    acc <= (9223372036854775807u64 - d) / 10,
                    d <= 9,
            ;
        }
        acc = acc * 10 + d;
        i = i + 1;
    }
    proof {
        assert(s.subrange(start as int, i as int) =~= digits);
    }
    if acc == 0 {
        return None;
    }
    Some(acc as i64)
}

} // verus!
