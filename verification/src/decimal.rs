//! Whole numbers as text writes them in base ten.

use vstd::prelude::*;

verus! {

/// One of the ten decimal digits.
pub open spec fn is_digit(c: char) -> bool {
    '0' <= c <= '9'
}

/// Whether `text` is made of decimal digits only.
pub open spec fn all_digits(text: Seq<char>) -> bool {
    forall|i: int| 0 <= i < text.len() ==> is_digit(#[trigger] text[i])
}

/// The number that a digit stands for.
pub open spec fn digit_value(c: char) -> nat {
    (c as u32 - '0' as u32) as nat
}

/// The number that a string of digits writes in base ten.
pub open spec fn decimal_value(digits: Seq<char>) -> nat
    decreases digits.len(),
{
    if digits.len() == 0 {
        0
    } else {
        decimal_value(digits.drop_last()) * 10 + digit_value(digits.last())
    }
}

/// The number that `text` writes, if it writes one that is at most `max`:
/// decimal digits, at least one, with at most one `+` in front of them.
pub open spec fn parse_decimal(text: Seq<char>, max: nat) -> Option<nat> {
    let digits = if text.len() > 0 && text[0] == '+' {
        text.drop_first()
    } else {
        text
    };
    if digits.len() > 0 && all_digits(digits) && decimal_value(digits) <= max {
        Some(decimal_value(digits))
    } else {
        None
    }
}

/// A number is at least as large as the number that any of its leading
/// digits write.
pub proof fn lemma_decimal_value_grows(digits: Seq<char>, n: int)
    requires
        0 <= n <= digits.len(),
    ensures
        decimal_value(digits.take(n)) <= decimal_value(digits),
    decreases digits.len() - n,
{
    if n < digits.len() {
        lemma_decimal_value_grows(digits, n + 1);
        assert(digits.take(n + 1).drop_last() == digits.take(n));
    } else {
        assert(digits.take(n) == digits);
    }
}

/// Reads the number that `chars[from..to]` writes, as `parse_decimal` defines
/// it, up to the largest `u64`.
pub fn read_decimal(chars: &[char], from: usize, to: usize) -> (value: Option<u64>)
    requires
        from <= to <= chars.len(),
    ensures
        match value {
            Some(v) => parse_decimal(chars@.subrange(from as int, to as int), u64::MAX as nat)
                == Some(v as nat),
            None => parse_decimal(chars@.subrange(from as int, to as int), u64::MAX as nat)
                is None,
        },
{
    let ghost text = chars@.subrange(from as int, to as int);
    let first: usize = if from < to && chars[from] == '+' {
        from + 1
    } else {
        from
    };
    let ghost digits = chars@.subrange(first as int, to as int);
    let ghost target = parse_decimal(text, u64::MAX as nat);
    assert(digits == if text.len() > 0 && text[0] == '+' {
        text.drop_first()
    } else {
        text
    });
    if first == to {
        return None;
    }
    let mut value: u64 = 0;
    let mut i: usize = first;
    while i < to
        invariant
            from <= first <= i <= to <= chars.len(),
            digits == chars@.subrange(first as int, to as int),
            target == parse_decimal(chars@.subrange(from as int, to as int), u64::MAX as nat),
            target == if all_digits(digits) && decimal_value(digits) <= u64::MAX {
                Some(decimal_value(digits))
            } else {
                None
            },
            all_digits(digits.take(i - first)),
            value == decimal_value(digits.take(i - first)),
        decreases to - i,
    {
        let c = chars[i];
        let ghost seen = digits.take(i - first);
        let ghost next = digits.take(i - first + 1);
        assert(next.drop_last() == seen);
        if !('0' <= c && c <= '9') {
            assert(!is_digit(digits[i - first]));
            return None;
        }
        let d: u64 = (c as u32 - '0' as u32) as u64;
        proof {
            lemma_decimal_value_grows(digits, i - first + 1);
        }
        if value > (u64::MAX - d) / 10 {
            return None;
        }
        value = value * 10 + d;
        i += 1;
    }
    assert(digits.take(i - first) == digits);
    Some(value)
}

} // verus!
