use vstd::prelude::*;
use vstd::string::*;

verus! {

/// The character that writes the decimal digit `d`.
pub open spec fn digit_char(d: nat) -> char {
    if d == 0 {
        '0'
    } else if d == 1 {
        '1'
    } else if d == 2 {
        '2'
    } else if d == 3 {
        '3'
    } else if d == 4 {
        '4'
    } else if d == 5 {
        '5'
    } else if d == 6 {
        '6'
    } else if d == 7 {
        '7'
    } else if d == 8 {
        '8'
    } else {
        '9'
    }
}

/// `n` written in decimal, without leading zeros.
pub open spec fn decimal_text(n: nat) -> Seq<char>
    decreases n,
{
    if n < 10 {
        seq![digit_char(n)]
    } else {
        decimal_text(n / 10).push(digit_char(n % 10))
    }
}

/// Whether `c` is a decimal digit.
pub open spec fn is_digit(c: char) -> bool {
    '0' <= c <= '9'
}

/// The number that the decimal digit `c` writes.
pub open spec fn digit_value(c: char) -> nat {
    (c as u32 - '0' as u32) as nat
}

/// Whether `text` holds decimal digits only.
pub open spec fn all_digits(text: Seq<char>) -> bool {
    forall|i: int| 0 <= i < text.len() ==> is_digit(#[trigger] text[i])
}

/// The number that the decimal digits of `text` write; leading zeros count
/// for nothing.
pub open spec fn decimal_value(text: Seq<char>) -> nat
    decreases text.len(),
{
    if text.len() == 0 {
        0
    } else {
        decimal_value(text.drop_last()) * 10 + digit_value(text.last())
    }
}

/// `text` without the plus sign that may stand in front of a number.
pub open spec fn unsigned_body(text: Seq<char>) -> Seq<char> {
    if text.len() > 0 && text[0] == '+' {
        text.drop_first()
    } else {
        text
    }
}

/// The whole number that `text` writes: one or more decimal digits, with or
/// without a plus sign in front. Anything else writes no number.
pub open spec fn unsigned_value(text: Seq<char>) -> Option<nat> {
    let digits = unsigned_body(text);
    if digits.len() > 0 && all_digits(digits) {
        Some(decimal_value(digits))
    } else {
        None
    }
}

/// What a run of characters reads as.
#[derive(Debug, Clone, Copy, PartialEq, Eq)]
pub enum Reading {
    /// A character of the run is no decimal digit.
    NotDigits,
    /// The digits write a number above the limit.
    TooLarge,
    /// The digits write this number.
    Value(u64),
}

/// What `text` reads as where numbers up to `max` are wanted. A run without
/// characters writes zero.
pub open spec fn reading(text: Seq<char>, max: u64) -> Reading {
    if !all_digits(text) {
        Reading::NotDigits
    } else if decimal_value(text) > max {
        Reading::TooLarge
    } else {
        Reading::Value(decimal_value(text) as u64)
    }
}

/// Reads the characters `chars[from..to]` as a number of at most `max`.
pub fn read_digits(chars: &Vec<char>, from: usize, to: usize, max: u64) -> (result: Reading)
    requires
        from <= to <= chars.len(),
    ensures
        result == reading(chars@.subrange(from as int, to as int), max),
{
    let mut value: u64 = 0;
    let mut over = false;
    let mut i: usize = from;
    while i < to
        invariant
            from <= i <= to <= chars.len(),
            all_digits(chars@.subrange(from as int, i as int)),
            over ==> decimal_value(chars@.subrange(from as int, i as int)) > max,
            !over ==> value == decimal_value(chars@.subrange(from as int, i as int)),
            value <= max,
        decreases to - i,
    {
        let c = chars[i];
        if !('0' <= c && c <= '9') {
            proof {
                assert(chars@.subrange(from as int, to as int)[i - from] == c);
            }
            return Reading::NotDigits;
        }
        let digit = (c as u32 - '0' as u32) as u128;
        proof {
            let next = chars@.subrange(from as int, i + 1);
            assert(next.drop_last() =~= chars@.subrange(from as int, i as int));
            assert(next.last() == c);
            assert forall|j: int| 0 <= j < next.len() implies is_digit(#[trigger] next[j]) by {
                if j < next.len() - 1 {
                    assert(next[j] == chars@.subrange(from as int, i as int)[j]);
                }
            }
        }
        if !over {
            let next: u128 = value as u128 * 10 + digit;
            if next > max as u128 {
                over = true;
            } else {
                value = next as u64;
            }
        }
        i += 1;
    }
    if over {
        Reading::TooLarge
    } else {
        Reading::Value(value)
    }
}

/// The whole number that `chars` writes, if it writes one that is at most
/// `max`.
pub fn parse_unsigned(chars: &Vec<char>, max: u64) -> (value: Option<u64>)
    ensures
        value == match unsigned_value(chars@) {
            Some(n) => if n <= max {
                Some(n as u64)
            } else {
                None
            },
            None => None,
        },
{
    let from: usize = if chars.len() > 0 && chars[0] == '+' {
        1
    } else {
        0
    };
    proof {
        assert(chars@.subrange(from as int, chars.len() as int) =~= unsigned_body(chars@));
    }
    if from == chars.len() {
        return None;
    }
    match read_digits(chars, from, chars.len(), max) {
        Reading::Value(n) => Some(n),
        _ => None,
    }
}

/// A number written in decimal reads back as itself: its text holds digits
/// only, at least one, and they write the number.
pub proof fn written_number_reads_back(n: nat)
    ensures
        decimal_text(n).len() > 0,
        all_digits(decimal_text(n)),
        decimal_value(decimal_text(n)) == n,
        unsigned_value(decimal_text(n)) == Some(n),
    decreases n,
{
    let text = decimal_text(n);
    if n < 10 {
        assert(text.drop_last() =~= Seq::<char>::empty());
        assert(decimal_value(text) == decimal_value(text.drop_last()) * 10 + digit_value(
            text.last(),
        ));
    } else {
        written_number_reads_back(n / 10);
        assert(text.drop_last() =~= decimal_text(n / 10));
        assert(text.last() == digit_char(n % 10));
        assert forall|i: int| 0 <= i < text.len() implies is_digit(#[trigger] text[i]) by {
            if i < text.len() - 1 {
                assert(text[i] == decimal_text(n / 10)[i]);
            }
        }
    }
    assert(is_digit(text[0]));
    assert(unsigned_body(text) == text);
}

/// The text of one decimal digit.
pub fn digit_text(d: u64) -> (text: &'static str)
    requires
        d < 10,
    ensures
        text@ == seq![digit_char(d as nat)],
{
    proof {
        reveal_strlit("0");
        reveal_strlit("1");
        reveal_strlit("2");
        reveal_strlit("3");
        reveal_strlit("4");
        reveal_strlit("5");
        reveal_strlit("6");
        reveal_strlit("7");
        reveal_strlit("8");
        reveal_strlit("9");
    }
    let text = if d == 0 {
        "0"
    } else if d == 1 {
        "1"
    } else if d == 2 {
        "2"
    } else if d == 3 {
        "3"
    } else if d == 4 {
        "4"
    } else if d == 5 {
        "5"
    } else if d == 6 {
        "6"
    } else if d == 7 {
        "7"
    } else if d == 8 {
        "8"
    } else {
        "9"
    };
    assert(text@ =~= seq![digit_char(d as nat)]);
    text
}

/// Writes `n` in decimal at the end of `out`.
pub fn push_decimal(out: &mut String, n: u64)
    ensures
        final(out)@ == old(out)@ + decimal_text(n as nat),
    decreases n,
{
    if n >= 10 {
        push_decimal(out, n / 10);
    }
    out.append(digit_text(n % 10));
    proof {
        assert(final(out)@ =~= old(out)@ + decimal_text(n as nat));
    }
}

/// `n` in decimal, as text.
pub fn format_decimal(n: u64) -> (text: String)
    ensures
        text@ == decimal_text(n as nat),
{
    let mut out = String::new();
    push_decimal(&mut out, n);
    proof {
        assert(out@ =~= decimal_text(n as nat));
    }
    out
}

} // verus!
