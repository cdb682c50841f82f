//! Decimal numerals: reading a signed integer out of text and writing one
//! back.

use vstd::prelude::*;
use vstd::string::*;

verus! {

/// `c` is one of `0` to `9`.
pub open spec fn is_digit(c: char) -> bool {
    '0' <= c <= '9'
}

/// What a digit counts for.
pub open spec fn digit_value(c: char) -> int {
    c as int - '0' as int
}

/// Every character of `s` is a digit.
pub open spec fn all_digits(s: Seq<char>) -> bool {
    forall|i: int| 0 <= i < s.len() ==> is_digit(#[trigger] s[i])
}

/// The number that a run of digits writes in base ten.
pub open spec fn digits_value(s: Seq<char>) -> int
    decreases s.len(),
{
    if s.len() == 0 {
        0
    } else {
        digits_value(s.drop_last()) * 10 + digit_value(s.last())
    }
}

/// The integer that `s` writes: an optional `+` or `-`, then one digit or
/// more and nothing else.
pub open spec fn signed_decimal(s: Seq<char>) -> Option<int> {
    if s.len() == 0 {
        None
    } else {
        let digits = if s[0] == '-' || s[0] == '+' {
            s.skip(1)
        } else {
            s
        };
        if digits.len() == 0 || !all_digits(digits) {
            None
        } else if s[0] == '-' {
            Some(-digits_value(digits))
        } else {
            Some(digits_value(digits))
        }
    }
}

/// The integer that `s` writes, where it fits in 32 bits.
pub open spec fn decimal_i32(s: Seq<char>) -> Option<i32> {
    match signed_decimal(s) {
        Some(v) => if i32::MIN <= v <= i32::MAX {
            Some(v as i32)
        } else {
            None
        },
        None => None,
    }
}

/// A run of digits counts for no less than any of its prefixes.
pub proof fn lemma_digits_value_grows(s: Seq<char>, n: int)
    requires
        all_digits(s),
        0 <= n <= s.len(),
    ensures
        0 <= digits_value(s.take(n)) <= digits_value(s),
    decreases s.len(),
{
    if n == s.len() {
        assert(s.take(n) =~= s);
        if n > 0 {
            assert(all_digits(s.drop_last()));
            lemma_digits_value_grows(s.drop_last(), n - 1);
            assert(is_digit(s[n - 1]));
        }
    } else {
        assert(all_digits(s.drop_last()));
        assert(is_digit(s[s.len() - 1]));
        assert(s.drop_last().take(n) =~= s.take(n));
        lemma_digits_value_grows(s.drop_last(), n);
        lemma_digits_value_grows(s.drop_last(), s.len() - 1);
    }
}

/// Reads the signed integer that `s[from..to]` writes.
pub fn parse_i32(s: &Vec<char>, from: usize, to: usize) -> (r: Option<i32>)
    requires
        from <= to <= s.len(),
    ensures
        r == decimal_i32(s@.subrange(from as int, to as int)),
{
    let ghost text = s@.subrange(from as int, to as int);
    if from == to {
        return None;
    }
    let negative = s[from] == '-';
    let first: usize = if negative || s[from] == '+' {
        from + 1
    } else {
        from
    };
    let ghost digits = s@.subrange(first as int, to as int);
    assert(text[0] == s@[from as int]);
    assert(digits =~= if text[0] == '-' || text[0] == '+' {
        text.skip(1)
    } else {
        text
    });
    if first == to {
        return None;
    }
    let mut value: i64 = 0;
    let mut i: usize = first;
    while i < to
        invariant
            from <= first <= i <= to <= s.len(),
            from < to,
            text == s@.subrange(from as int, to as int),
            digits == s@.subrange(first as int, to as int),
            digits == if text[0] == '-' || text[0] == '+' {
                text.skip(1)
            } else {
                text
            },
            digits.len() > 0,
            all_digits(digits.take(i - first)),
            value == digits_value(digits.take(i - first)),
            0 <= value <= 2147483648,
        decreases to - i,
    {
        let c = s[i];
        assert(digits[i - first] == c);
        if !('0' <= c && c <= '9') {
            return None;
        }
        let ghost before = digits.take(i - first);
        let ghost after = digits.take(i - first + 1);
        assert(after.drop_last() =~= before);
        assert(after.last() == c);
        assert(all_digits(after)) by {
            assert forall|j: int| 0 <= j < after.len() implies is_digit(#[trigger] after[j]) by {
                if j < before.len() {
                    assert(after[j] == before[j]);
                }
            }
        }
        value = value * 10 + (c as u32 - '0' as u32) as i64;
        if value > 2147483648 {
            proof {
                if all_digits(digits) {
                    lemma_digits_value_grows(digits, i - first + 1);
                }
            }
            return None;
        }
        i += 1;
    }
    assert(digits.take(i - first) =~= digits);
    if negative {
        Some((-value) as i32)
    } else if value <= 2147483647 {
        Some(value as i32)
    } else {
        None
    }
}

/// The digit that writes `d`.
pub open spec fn digit_char(d: int) -> char {
    (d + '0' as int) as char
}

/// `n` written in base ten, without leading zeros.
pub open spec fn decimal_text(n: nat) -> Seq<char>
    decreases n,
{
    if n < 10 {
        seq![digit_char(n as int)]
    } else {
        decimal_text(n / 10).push(digit_char((n % 10) as int))
    }
}

/// What `decimal_text` writes, `digits_value` reads back.
pub proof fn lemma_decimal_round_trip(n: nat)
    ensures
        decimal_text(n).len() > 0,
        all_digits(decimal_text(n)),
        digits_value(decimal_text(n)) == n,
    decreases n,
{
    let text = decimal_text(n);
    if n < 10 {
        assert(text.drop_last() =~= Seq::<char>::empty());
        assert(digits_value(text.drop_last()) == 0);
    } else {
        lemma_decimal_round_trip(n / 10);
        assert(text.drop_last() =~= decimal_text(n / 10));
        assert forall|i: int| 0 <= i < text.len() implies is_digit(#[trigger] text[i]) by {
            if i < text.len() - 1 {
                assert(text[i] == decimal_text(n / 10)[i]);
            }
        }
    }
}

/// One digit as a string.
fn digit_str(d: u8) -> (s: &'static str)
    requires
        d < 10,
    ensures
        s@ == seq![digit_char(d as int)],
{
    proof {
        reveal_strlit("0");
        reveal_strlit("1");
        reveal_strlit("2");
        reveal_strlit("3");
        reveal_strlit("4");
        reveal_strlit("5");
        reveal_strlit("6");
        reveal_strlit("7");
        reveal_strlit("8");
        reveal_strlit("9");
    }
    let s = match d {
        0 => "0",
        1 => "1",
        2 => "2",
        3 => "3",
        4 => "4",
        5 => "5",
        6 => "6",
        7 => "7",
        8 => "8",
        _ => "9",
    };
    assert(s@ =~= seq![digit_char(d as int)]);
    s
}

/// Appends `n` in base ten to `out`.
pub fn append_decimal(out: &mut String, n: u64)
    ensures
        final(out)@ == old(out)@ + decimal_text(n as nat),
    decreases n,
{
    if n < 10 {
        out.append(digit_str(n as u8));
    } else {
        append_decimal(out, n / 10);
        out.append(digit_str((n % 10) as u8));
        assert(old(out)@ + decimal_text((n / 10) as nat) + seq![digit_char((n % 10) as int)]
            =~= old(out)@ + decimal_text(n as nat));
    }
}

/// A count of thousandths as the nearest count of hundredths of its
/// magnitude, a half rounding away from zero.
pub open spec fn hundredths(millis: int) -> nat {
    if millis < 0 {
        ((-millis + 5) / 10) as nat
    } else {
        ((millis + 5) / 10) as nat
    }
}

/// A temperature in thousandths of a degree, written in degrees with two
/// decimals: `22812` is `22.81`, `-10562` is `-10.56`.
pub open spec fn degrees_text(millis: int) -> Seq<char> {
    let h = hundredths(millis);
    let sign = if millis < 0 {
        seq!['-']
    } else {
        Seq::<char>::empty()
    };
    sign + decimal_text(h / 100) + seq!['.', digit_char((h / 10 % 10) as int), digit_char((h % 10) as int)]
}

/// Appends a temperature in degrees with two decimals to `out`.
pub fn append_degrees(out: &mut String, millis: i64)
    ensures
        final(out)@ == old(out)@ + degrees_text(millis as int),
{
    let magnitude: u64 = if millis < 0 {
        (-(millis + 1)) as u64 + 1
    } else {
        millis as u64
    };
    let h: u64 = (magnitude + 5) / 10;
    assert(h == hundredths(millis as int));
    if millis < 0 {
        out.append("-");
    }
    append_decimal(out, h / 100);
    out.append(".");
    out.append(digit_str((h / 10 % 10) as u8));
    out.append(digit_str((h % 10) as u8));
    proof {
        reveal_strlit("-");
        reveal_strlit(".");
        assert(final(out)@ =~= old(out)@ + degrees_text(millis as int));
    }
}

/// An integer written in base ten, with a `-` in front where it is
/// negative.
pub open spec fn signed_text(value: int) -> Seq<char> {
    if value < 0 {
        seq!['-'] + decimal_text((-value) as nat)
    } else {
        decimal_text(value as nat)
    }
}

/// What `signed_text` writes, `signed_decimal` reads back.
pub proof fn lemma_signed_round_trip(value: int)
    ensures
        signed_decimal(signed_text(value)) == Some(value),
        signed_text(value).len() > 0,
        is_digit(signed_text(value).last()),
        is_digit(signed_text(value)[0]) || signed_text(value)[0] == '-',
{
    let text = signed_text(value);
    if value < 0 {
        let digits = decimal_text((-value) as nat);
        lemma_decimal_round_trip((-value) as nat);
        assert(text.skip(1) =~= digits);
        assert(text.last() == digits.last());
        assert(is_digit(digits[digits.len() - 1]));
    } else {
        lemma_decimal_round_trip(value as nat);
        assert(is_digit(text[0]));
        assert(is_digit(text[text.len() - 1]));
    }
}

/// Appends `value` in base ten to `out`, with a `-` in front where it is
/// negative.
pub fn append_signed(out: &mut String, value: i64)
    ensures
        final(out)@ == old(out)@ + signed_text(value as int),
{
    if value < 0 {
        let magnitude: u64 = (-(value + 1)) as u64 + 1;
        out.append("-");
        append_decimal(out, magnitude);
        proof {
            reveal_strlit("-");
            assert(final(out)@ =~= old(out)@ + signed_text(value as int));
        }
    } else {
        append_decimal(out, value as u64);
    }
}

} // verus!
