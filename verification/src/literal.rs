//! Integer literals: the text of a signed 64-bit integer in decimal, read
//! and written.

use vstd::prelude::*;
use vstd::string::*;

verus! {

/// Whether a character is one of the decimal digits `0` to `9`.
pub open spec fn is_digit(c: char) -> bool {
    '0' <= c <= '9'
}

/// The number that a decimal digit stands for.
pub open spec fn digit_value(c: char) -> int {
    c as int - '0' as int
}

pub open spec fn all_digits(digits: Seq<char>) -> bool {
    forall|i: int| 0 <= i < digits.len() ==> is_digit(#[trigger] digits[i])
}

/// The number that a run of decimal digits spells.
pub open spec fn digits_value(digits: Seq<char>) -> int
    decreases digits.len(),
{
    if digits.len() == 0 {
        0
    } else {
        10 * digits_value(digits.drop_last()) + digit_value(digits.last())
    }
}

/// The integer that a word spells, if it is an integer literal: an optional
/// `+` or `-`, then at least one decimal digit and nothing else, and a value
/// that fits 64 bits with sign.
pub open spec fn literal_value(word: Seq<char>) -> Option<i64> {
    let signed = word.len() > 0 && (word[0] == '-' || word[0] == '+');
    let digits = if signed {
        word.skip(1)
    } else {
        word
    };
    let value = if word.len() > 0 && word[0] == '-' {
        -digits_value(digits)
    } else {
        digits_value(digits)
    };
    if digits.len() > 0 && all_digits(digits) && i64::MIN <= value <= i64::MAX {
        Some(value as i64)
    } else {
        None
    }
}

/// The digits seen so far never spell more than the whole run does.
pub proof fn lemma_digits_value_grows(digits: Seq<char>, k: int)
    requires
        0 <= k <= digits.len(),
        all_digits(digits),
    ensures
        0 <= digits_value(digits.take(k)) <= digits_value(digits),
    decreases digits.len() - k,
{
    lemma_digits_value_nonnegative(digits.take(k));
    if k < digits.len() {
        lemma_digits_value_grows(digits, k + 1);
        assert(digits.take(k + 1).drop_last() =~= digits.take(k));
        assert(is_digit(digits[k]));
    } else {
        assert(digits.take(k) =~= digits);
    }
}

pub proof fn lemma_digits_value_nonnegative(digits: Seq<char>)
    requires
        all_digits(digits),
    ensures
        0 <= digits_value(digits),
    decreases digits.len(),
{
    if digits.len() > 0 {
        lemma_digits_value_nonnegative(digits.drop_last());
        assert(is_digit(digits[digits.len() - 1]));
    }
}

/// The integer that the characters from `start` up to `end` spell, if they
/// are an integer literal.
#[verifier::loop_isolation(false)]
pub(crate) fn literal_at(chars: &Vec<char>, start: usize, end: usize) -> (value: Option<i64>)
    requires
        start <= end <= chars.len(),
    ensures
        value == literal_value(chars@.subrange(start as int, end as int)),
{
    let ghost word = chars@.subrange(start as int, end as int);
    if start == end {
        return None;
    }
    let first: char = chars[start];
    assert(word[0] == first);
    let negative: bool = first == '-';
    let from: usize = if first == '-' || first == '+' {
        start + 1
    } else {
        start
    };
    let ghost digits = chars@.subrange(from as int, end as int);
    assert(digits =~= if from > start {
        word.skip(1)
    } else {
        word
    });
    if from == end {
        return None;
    }
    let mut acc: i64 = 0;
    let mut k: usize = from;
    while k < end
        invariant
            from <= k <= end <= chars.len(),
            digits == chars@.subrange(from as int, end as int),
            all_digits(digits.take(k - from)),
            acc == if negative {
                -digits_value(digits.take(k - from))
            } else {
                digits_value(digits.take(k - from))
            },
        decreases end - k,
    {
        let c: char = chars[k];
        let ghost seen = digits.take(k - from);
        let ghost next = digits.take(k - from + 1);
        proof {
            assert(digits[k - from] == c);
            assert(next.drop_last() =~= seen);
            assert(next.last() == c);
        }
        if !('0' <= c && c <= '9') {
            assert(!is_digit(digits[k - from]));
            return None;
        }
        assert(is_digit(c));
        assert(all_digits(next)) by {
            assert forall|i: int| 0 <= i < next.len() implies is_digit(#[trigger] next[i]) by {
                if i < seen.len() {
                    assert(next[i] == seen[i]);
                }
            }
        }
        let d: i64 = (c as u32 - '0' as u32) as i64;
        assert(d == digit_value(c));
        let stepped: Option<i64> = match acc.checked_mul(10) {
            None => None,
            Some(tenfold) => if negative {
                tenfold.checked_sub(d)
            } else {
                tenfold.checked_add(d)
            },
        };
        match stepped {
            Some(v) => {
                acc = v;
            },
            None => {
                proof {
                    lemma_digits_value_nonnegative(seen);
                    if all_digits(digits) {
                        lemma_digits_value_grows(digits, k - from + 1);
                    }
                }
                return None;
            },
        }
        k = k + 1;
    }
    assert(digits.take(k - from) =~= digits);
    Some(acc)
}

/// The character of a decimal digit.
pub open spec fn digit_char(d: int) -> char
    recommends
        0 <= d <= 9,
{
    if d == 0 {
        '0'
    } else if d == 1 {
        '1'
    } else if d == 2 {
        '2'
    } else if d == 3 {
        '3'
    } else if d == 4 {
        '4'
    } else if d == 5 {
        '5'
    } else if d == 6 {
        '6'
    } else if d == 7 {
        '7'
    } else if d == 8 {
        '8'
    } else {
        '9'
    }
}

/// The decimal digits of a natural number, without leading zeros; `0` is
/// written with one digit.
pub open spec fn decimal_digits(n: nat) -> Seq<char>
    decreases n,
{
    if n < 10 {
        seq![digit_char(n as int)]
    } else {
        decimal_digits(n / 10).push(digit_char((n % 10) as int))
    }
}

/// The decimal text of an integer: a `-` before the digits of a negative
/// number, no sign otherwise.
pub open spec fn decimal(v: int) -> Seq<char> {
    if v < 0 {
        seq!['-'] + decimal_digits((-v) as nat)
    } else {
        decimal_digits(v as nat)
    }
}

/// The digits of a number are digits, at least one of them, and spell the
/// number.
pub proof fn lemma_decimal_digits(n: nat)
    ensures
        decimal_digits(n).len() > 0,
        all_digits(decimal_digits(n)),
        digits_value(decimal_digits(n)) == n,
    decreases n,
{
    let digits = decimal_digits(n);
    if n < 10 {
        assert(digits.drop_last() =~= Seq::<char>::empty());
        assert(digits_value(digits.drop_last()) == 0);
    } else {
        lemma_decimal_digits(n / 10);
        let front = decimal_digits(n / 10);
        assert(digits.drop_last() =~= front);
        assert(digit_value(digits.last()) == n % 10);
        assert forall|i: int| 0 <= i < digits.len() implies is_digit(#[trigger] digits[i]) by {
            if i < front.len() {
                assert(digits[i] == front[i]);
            }
        }
    }
}

/// The decimal text of a 64-bit integer is an integer literal, and reads
/// back as the same integer.
pub proof fn lemma_decimal_reads_back(v: i64)
    ensures
        literal_value(decimal(v as int)) == Some(v),
{
    let text = decimal(v as int);
    if v < 0 {
        let digits = decimal_digits((-v) as nat);
        lemma_decimal_digits((-v) as nat);
        assert(text[0] == '-');
        assert(text.skip(1) =~= digits);
    } else {
        lemma_decimal_digits(v as nat);
        assert(is_digit(text[0]));
    }
}

/// The text of one decimal digit.
fn digit_text(d: u8) -> (text: &'static str)
    requires
        d <= 9,
    ensures
        text@ == seq![digit_char(d as int)],
{
    proof {
        reveal_strlit("0");
        reveal_strlit("1");
        reveal_strlit("2");
        reveal_strlit("3");
        reveal_strlit("4");
        reveal_strlit("5");
        reveal_strlit("6");
        reveal_strlit("7");
        reveal_strlit("8");
        reveal_strlit("9");
    }
    let text: &'static str = match d {
        0 => "0",
        1 => "1",
        2 => "2",
        3 => "3",
        4 => "4",
        5 => "5",
        6 => "6",
        7 => "7",
        8 => "8",
        _ => "9",
    };
    assert(text@ =~= seq![digit_char(d as int)]);
    text
}

/// The digits `low`, which stand least significant first, as text.
pub open spec fn digits_text(low: Seq<u8>) -> Seq<char> {
    Seq::new(low.len(), |j: int| digit_char(low[low.len() - 1 - j] as int))
}

/// Writes an integer in decimal.
pub fn format_integer(v: i64) -> (text: String)
    ensures
        text@ == decimal(v as int),
        literal_value(text@) == Some(v),
{
    let negative: bool = v < 0;
    let magnitude: u64 = if negative {
        ((-(v + 1)) as u64) + 1
    } else {
        v as u64
    };
    let mut low: Vec<u8> = Vec::new();
    low.push((magnitude % 10) as u8);
    let mut rest: u64 = magnitude / 10;
    proof {
        assert(digits_text(low@) =~= seq![digit_char((magnitude % 10) as int)]);
        if rest > 0 {
            assert(decimal_digits(magnitude as nat) =~= decimal_digits(rest as nat) + digits_text(
                low@,
            ));
        }
    }
    while rest > 0
        invariant
            low@.len() > 0,
            forall|j: int| 0 <= j < low@.len() ==> low@[j] <= 9,
            decimal_digits(magnitude as nat) == if rest > 0 {
                decimal_digits(rest as nat) + digits_text(low@)
            } else {
                digits_text(low@)
            },
        decreases rest,
    {
        let ghost before = low@;
        let d: u8 = (rest % 10) as u8;
        low.push(d);
        proof {
            assert(digits_text(low@) =~= seq![digit_char(d as int)] + digits_text(before));
            if rest >= 10 {
                assert(decimal_digits(rest as nat) + digits_text(before) =~= decimal_digits(
                    (rest / 10) as nat,
                ) + digits_text(low@));
            } else {
                assert(decimal_digits(rest as nat) + digits_text(before) =~= digits_text(low@));
            }
        }
        rest = rest / 10;
    }
    let mut text: String = String::new();
    proof {
        reveal_strlit("-");
    }
    if negative {
        text.append("-");
    }
    let ghost sign = text@;
    let n: usize = low.len();
    let mut k: usize = 0;
    while k < n
        invariant
            k <= n,
            n == low@.len(),
            forall|j: int| 0 <= j < low@.len() ==> low@[j] <= 9,
            text@ == sign + digits_text(low@).take(k as int),
        decreases n - k,
    {
        let ghost before = text@;
        text.append(digit_text(low[n - 1 - k]));
        proof {
            assert(digits_text(low@).take(k + 1) =~= digits_text(low@).take(k as int).push(
                digit_char(low@[n - 1 - k] as int),
            ));
            assert(text@ =~= sign + digits_text(low@).take(k + 1));
        }
        k = k + 1;
    }
    proof {
        assert(digits_text(low@).take(n as int) =~= digits_text(low@));
        assert(sign =~= if negative {
            seq!['-']
        } else {
            Seq::<char>::empty()
        });
        assert(text@ =~= decimal(v as int));
        lemma_decimal_reads_back(v);
    }
    text
}

} // verus!
