use vstd::prelude::*;
use vstd::string::*;

use vstd::arithmetic::div_mod::lemma_fundamental_div_mod_converse;

use crate::decimal::{
    all_digits, decimal_text, decimal_value, digit_char, digit_text, digit_value, is_digit,
    push_decimal, read_digits, unsigned_body, written_number_reads_back, Reading,
};

verus! {

/// Ledger units in one whole currency unit: amounts keep four fractional digits.
pub const UNITS_PER_WHOLE: u64 = 10000;

/// The four decimal digits of `n`, which is below ten thousand.
pub open spec fn fraction_text(n: nat) -> Seq<char> {
    seq![
        digit_char((n / 1000) % 10),
        digit_char((n / 100) % 10),
        digit_char((n / 10) % 10),
        digit_char(n % 10),
    ]
}

/// The size of a balance, whatever its sign.
pub open spec fn magnitude(units: int) -> nat {
    if units < 0 {
        (-units) as nat
    } else {
        units as nat
    }
}

/// A balance of `units` ledger units written with exactly four fractional
/// digits, with a minus sign in front where it is negative.
pub open spec fn amount_text(units: int) -> Seq<char> {
    let sign = if units < 0 {
        seq!['-']
    } else {
        Seq::<char>::empty()
    };
    sign + decimal_text(magnitude(units) / 10000).push('.') + fraction_text(
        magnitude(units) % 10000,
    )
}

/// Ten to the power of `e`.
pub open spec fn pow10(e: nat) -> nat
    decreases e,
{
    if e == 0 {
        1
    } else {
        10 * pow10((e - 1) as nat)
    }
}

/// The whole number nearest to `n / d`; of two that are equally near, the
/// even one.
pub open spec fn rounded_quotient(n: nat, d: nat) -> nat {
    let q = n / d;
    let r = n % d;
    if 2 * r > d || (2 * r == d && q % 2 == 1) {
        q + 1
    } else {
        q
    }
}

/// Where the decimal point of `text` stands: the place of its first `.`, or
/// its length where it has none.
pub open spec fn point_position(text: Seq<char>) -> int
    decreases text.len(),
{
    if text.len() == 0 || text[0] == '.' {
        0
    } else {
        1 + point_position(text.drop_first())
    }
}

/// What stands before the decimal point.
pub open spec fn whole_digits(text: Seq<char>) -> Seq<char> {
    text.take(point_position(text))
}

/// What stands after the decimal point; nothing where there is none.
pub open spec fn fraction_digits(text: Seq<char>) -> Seq<char> {
    if point_position(text) < text.len() {
        text.skip(point_position(text) + 1)
    } else {
        Seq::<char>::empty()
    }
}

/// The amount that `text` writes, in ledger units. An amount is written as
/// decimal digits with at most one decimal point among them and at least one
/// digit, with or without a plus sign in front. Its value is rounded to the
/// nearest ledger unit, a tie to the even one.
pub open spec fn amount_value(text: Seq<char>) -> Option<nat> {
    let body = unsigned_body(text);
    let whole = whole_digits(body);
    let fraction = fraction_digits(body);
    if all_digits(whole) && all_digits(fraction) && whole.len() + fraction.len() > 0 {
        Some(rounded_quotient(decimal_value(whole + fraction) * 10000, pow10(fraction.len())))
    } else {
        None
    }
}

proof fn lemma_pow10_sum(a: nat, b: nat)
    ensures
        pow10(a + b) == pow10(a) * pow10(b),
        pow10(a) > 0,
    decreases a,
{
    if a > 0 {
        let a1 = (a - 1) as nat;
        lemma_pow10_sum(a1, b);
        assert((a + b - 1) as nat == a1 + b);
        assert(pow10(a + b) == 10 * pow10(a1 + b));
        assert(pow10(a) == 10 * pow10(a1));
        assert(10 * (pow10(a1) * pow10(b)) == (10 * pow10(a1)) * pow10(b)) by (nonlinear_arith);
    } else {
        assert(pow10(a) == 1);
        assert(a + b == b);
        assert(1 * pow10(b) == pow10(b));
    }
}

proof fn lemma_decimal_value_concat(a: Seq<char>, b: Seq<char>)
    ensures
        decimal_value(a + b) == decimal_value(a) * pow10(b.len()) + decimal_value(b),
    decreases b.len(),
{
    let va = decimal_value(a);
    if b.len() == 0 {
        assert(a + b =~= a);
        assert(pow10(0) == 1);
        assert(va * 1 == va);
    } else {
        let init = b.drop_last();
        assert((a + b).drop_last() =~= a + init);
        assert((a + b).last() == b.last());
        lemma_decimal_value_concat(a, init);
        let p = pow10(init.len());
        let vb = decimal_value(init);
        let d = digit_value(b.last());
        assert(pow10(b.len()) == 10 * pow10((b.len() - 1) as nat));
        assert(decimal_value(a + b) == decimal_value(a + init) * 10 + d);
        assert(decimal_value(b) == vb * 10 + d);
        assert((va * p + vb) * 10 + d == va * (10 * p) + (vb * 10 + d)) by (nonlinear_arith);
    }
}

proof fn lemma_decimal_value_bound(text: Seq<char>)
    requires
        all_digits(text),
    ensures
        decimal_value(text) < pow10(text.len()),
    decreases text.len(),
{
    if text.len() > 0 {
        assert(is_digit(text[text.len() - 1]));
        assert(all_digits(text.drop_last())) by {
            assert forall|i: int| 0 <= i < text.drop_last().len() implies is_digit(
                #[trigger] text.drop_last()[i],
            ) by {
                assert(text.drop_last()[i] == text[i]);
            }
        }
        lemma_decimal_value_bound(text.drop_last());
    }
}

proof fn lemma_exact_quotient(u: nat, d: nat)
    requires
        d > 0,
    ensures
        rounded_quotient(u * d, d) == u,
{
    lemma_fundamental_div_mod_converse((u * d) as int, d as int, u as int, 0);
}

/// Rounding a number with digits beyond the fourth fractional one: `u` ledger
/// units, then the digit `d0`, then a tail worth `t` out of `p`.
proof fn lemma_rounded_quotient(u: nat, d0: nat, t: nat, p: nat)
    requires
        d0 <= 9,
        t < p,
    ensures
        rounded_quotient(u * (100000 * p) + (d0 * p + t) * 10000, 100000 * p) == u + (if d0 > 5 || (
        d0 == 5 && (t > 0 || u % 2 == 1)) {
            1nat
        } else {
            0nat
        }),
{
    let d = 100000 * p;
    let r = (d0 * p + t) * 10000;
    assert(d0 * p + t < 10 * p) by (nonlinear_arith)
        requires
            d0 <= 9,
            t < p,
    ;
    lemma_fundamental_div_mod_converse((u * d + r) as int, d as int, u as int, r as int);
    assert(d0 > 5 ==> 2 * r > d) by (nonlinear_arith)
        requires
            r == (d0 * p + t) * 10000,
            d == 100000 * p,
            p > 0,
    ;
    assert(d0 < 5 ==> 2 * r < d) by (nonlinear_arith)
        requires
            r == (d0 * p + t) * 10000,
            d == 100000 * p,
            t < p,
    ;
    assert(d0 == 5 ==> 2 * r == d + 20000 * t) by (nonlinear_arith)
        requires
            r == (d0 * p + t) * 10000,
            d == 100000 * p,
    ;
}

/// The first four fractional digits as a number of ledger units.
spec fn kept_fraction(fraction: Seq<char>) -> nat {
    if fraction.len() <= 4 {
        decimal_value(fraction) * pow10((4 - fraction.len()) as nat)
    } else {
        decimal_value(fraction.take(4))
    }
}

/// Whether the digits beyond the fourth fractional one round `base` up.
spec fn rounds_up(base: nat, fraction: Seq<char>) -> bool {
    fraction.len() > 4 && (digit_value(fraction[4]) > 5 || (digit_value(fraction[4]) == 5 && (
    decimal_value(fraction.skip(5)) > 0 || base % 2 == 1)))
}

/// The amount in ledger units, digit by digit.
spec fn units_by_digits(whole: Seq<char>, fraction: Seq<char>) -> nat {
    let base = decimal_value(whole) * 10000 + kept_fraction(fraction);
    if rounds_up(base, fraction) {
        base + 1
    } else {
        base
    }
}

proof fn lemma_all_digits_part(text: Seq<char>, from: int, to: int)
    requires
        all_digits(text),
        0 <= from <= to <= text.len(),
    ensures
        all_digits(text.subrange(from, to)),
{
    assert forall|i: int| 0 <= i < to - from implies is_digit(
        #[trigger] text.subrange(from, to)[i],
    ) by {
        assert(text.subrange(from, to)[i] == text[from + i]);
    }
}

proof fn lemma_units_by_digits(whole: Seq<char>, fraction: Seq<char>)
    requires
        all_digits(whole),
        all_digits(fraction),
    ensures
        rounded_quotient(decimal_value(whole + fraction) * 10000, pow10(fraction.len()))
            == units_by_digits(whole, fraction),
{
    let k = fraction.len();
    let w = decimal_value(whole);
    let f = decimal_value(fraction);
    let n = decimal_value(whole + fraction);
    lemma_decimal_value_concat(whole, fraction);
    assert(pow10(4) == 10000) by {
        reveal_with_fuel(pow10, 5);
    }
    if k <= 4 {
        let pk = pow10(k);
        let q = pow10((4 - k) as nat);
        lemma_pow10_sum(k, (4 - k) as nat);
        let base = w * 10000 + f * q;
        assert(n * 10000 == base * pk) by (nonlinear_arith)
            requires
                n == w * pk + f,
                10000 == pk * q,
                base == w * 10000 + f * q,
        ;
        lemma_exact_quotient(base, pk);
    } else {
        let f4 = fraction.take(4);
        let rest = fraction.skip(4);
        let head = seq![fraction[4]];
        let tail = fraction.skip(5);
        assert(fraction =~= f4 + rest);
        assert(rest =~= head + tail);
        lemma_decimal_value_concat(f4, rest);
        lemma_decimal_value_concat(head, tail);
        lemma_all_digits_part(fraction, 5, k as int);
        assert(fraction.subrange(5, k as int) =~= tail);
        lemma_decimal_value_bound(tail);
        let p = pow10(tail.len());
        let d0 = digit_value(fraction[4]);
        let t = decimal_value(tail);
        assert(decimal_value(head) == d0) by {
            assert(head.drop_last() =~= Seq::<char>::empty());
            assert(decimal_value(head) == decimal_value(head.drop_last()) * 10 + digit_value(
                head.last(),
            ));
        }
        assert(is_digit(fraction[4]));
        assert(pow10(rest.len()) == 10 * p) by {
            assert(rest.len() == tail.len() + 1);
        }
        lemma_pow10_sum(4, rest.len());
        assert(pow10(k) == 100000 * p) by {
            assert(k == 4 + rest.len());
        }
        let v4 = decimal_value(f4);
        let base = w * 10000 + v4;
        assert(n * 10000 == base * (100000 * p) + (d0 * p + t) * 10000) by (nonlinear_arith)
            requires
                n == w * (100000 * p) + f,
                f == v4 * (10 * p) + (d0 * p + t),
                base == w * 10000 + v4,
        ;
        lemma_rounded_quotient(base, d0, t, p);
    }
}

proof fn lemma_point_position(text: Seq<char>, n: int)
    requires
        0 <= n <= text.len(),
        forall|j: int| 0 <= j < n ==> text[j] != '.',
        n < text.len() ==> text[n] == '.',
    ensures
        point_position(text) == n,
    decreases n,
{
    if n > 0 {
        lemma_point_position(text.drop_first(), n - 1);
    }
}

proof fn lemma_digit_char(d: nat)
    requires
        d < 10,
    ensures
        is_digit(digit_char(d)),
        digit_value(digit_char(d)) == d,
{
}

proof fn lemma_fraction_text(f: nat)
    requires
        f < 10000,
    ensures
        all_digits(fraction_text(f)),
        decimal_value(fraction_text(f)) == f,
{
    let d3 = (f / 1000) % 10;
    let d2 = (f / 100) % 10;
    let d1 = (f / 10) % 10;
    let d0 = f % 10;
    lemma_digit_char(d3);
    lemma_digit_char(d2);
    lemma_digit_char(d1);
    lemma_digit_char(d0);
    let s1 = seq![digit_char(d3)];
    let s2 = s1.push(digit_char(d2));
    let s3 = s2.push(digit_char(d1));
    let s4 = s3.push(digit_char(d0));
    assert(s4 =~= fraction_text(f));
    assert(s1.drop_last() =~= Seq::<char>::empty());
    assert(decimal_value(s1.drop_last()) == 0);
    assert(decimal_value(s1) == d3);
    assert(s2.drop_last() =~= s1);
    assert(decimal_value(s2) == d3 * 10 + d2);
    assert(s3.drop_last() =~= s2);
    assert(decimal_value(s3) == (d3 * 10 + d2) * 10 + d1);
    assert(s4.drop_last() =~= s3);
    assert(decimal_value(s4) == ((d3 * 10 + d2) * 10 + d1) * 10 + d0);
}

/// The parts of a written balance that is not negative: the whole currency
/// units in decimal before the point, four digits after it.
proof fn lemma_amount_text_parts(units: nat)
    ensures
        unsigned_body(amount_text(units as int)) == amount_text(units as int),
        whole_digits(amount_text(units as int)) == decimal_text(units / 10000),
        fraction_digits(amount_text(units as int)) == fraction_text(units % 10000),
{
    let whole = decimal_text(units / 10000);
    let fraction = fraction_text(units % 10000);
    let text = amount_text(units as int);
    written_number_reads_back(units / 10000);
    assert(text =~= whole.push('.') + fraction);
    assert(text[0] == whole[0]);
    assert(is_digit(whole[0]));
    assert forall|j: int| 0 <= j < whole.len() implies text[j] != '.' by {
        assert(text[j] == whole[j]);
        assert(is_digit(whole[j]));
    }
    assert(text[whole.len() as int] == '.');
    lemma_point_position(text, whole.len() as int);
    assert(whole_digits(text) =~= whole);
    assert(fraction_digits(text) =~= fraction);
}

/// A balance that is not negative, written with four fractional digits,
/// reads back as the same number of ledger units.
pub proof fn written_amount_reads_back(units: nat)
    ensures
        amount_value(amount_text(units as int)) == Some(units),
{
    let w = units / 10000;
    let f = units % 10000;
    let whole = decimal_text(w);
    let fraction = fraction_text(f);
    lemma_amount_text_parts(units);
    written_number_reads_back(w);
    lemma_fraction_text(f);
    lemma_decimal_value_concat(whole, fraction);
    assert(pow10(4) == 10000) by {
        reveal_with_fuel(pow10, 5);
    }
    assert(fraction.len() == 4);
    assert(decimal_value(whole + fraction) == w * 10000 + f);
    assert(units == w * 10000 + f);
    lemma_exact_quotient(units, 10000);
}

/// The largest amount of whole currency units that fits into ledger units.
const WHOLE_MAX: u64 = 1844674407370955;

/// Where the parts of a number stand in `chars`: the whole part is
/// `chars[from..point]`, the fraction `chars[after..]`.
fn number_parts(chars: &Vec<char>) -> (parts: (usize, usize, usize))
    ensures
        parts.0 <= parts.1 <= parts.2 <= chars.len(),
        whole_digits(unsigned_body(chars@)) == chars@.subrange(parts.0 as int, parts.1 as int),
        fraction_digits(unsigned_body(chars@)) == chars@.subrange(
            parts.2 as int,
            chars.len() as int,
        ),
{
    let len = chars.len();
    let from: usize = if len > 0 && chars[0] == '+' {
        1
    } else {
        0
    };
    let mut point: usize = from;
    while point < len && chars[point] != '.'
        invariant
            from <= point <= len == chars.len(),
            forall|j: int| from <= j < point ==> chars@[j] != '.',
        decreases len - point,
    {
        point += 1;
    }
    let after: usize = if point < len {
        point + 1
    } else {
        len
    };
    proof {
        let body = unsigned_body(chars@);
        assert(body =~= chars@.subrange(from as int, len as int));
        lemma_point_position(body, point - from);
        assert(whole_digits(body) =~= chars@.subrange(from as int, point as int));
        assert(fraction_digits(body) =~= chars@.subrange(after as int, len as int));
    }
    (from, point, after)
}

/// Reads the fraction `chars[after..]`: its first four digits as ledger
/// units, the fifth digit, and whether any digit after the fifth is not zero.
/// Nothing where a character of the fraction is no digit.
fn read_fraction(chars: &Vec<char>, after: usize) -> (parts: Option<(u64, u64, bool)>)
    requires
        after <= chars.len(),
    ensures
        parts is Some <==> all_digits(chars@.subrange(after as int, chars.len() as int)),
        parts matches Some((kept, fifth, beyond)) ==> {
            let fraction = chars@.subrange(after as int, chars.len() as int);
            &&& kept == kept_fraction(fraction)
            &&& fraction.len() > 4 ==> fifth == digit_value(fraction[4]) && beyond == (
            decimal_value(fraction.skip(5)) > 0)
        },
{
    let len = chars.len();
    let long = len - after > 4;
    let kept_end: usize = if long {
        after + 4
    } else {
        len
    };
    let tail_from: usize = if long {
        after + 5
    } else {
        len
    };
    let kept = read_digits(chars, after, kept_end, 9999);
    let fifth = read_digits(chars, kept_end, tail_from, 9);
    let beyond = read_digits(chars, tail_from, len, 0);
    let ghost fraction = chars@.subrange(after as int, len as int);
    let ghost f4 = chars@.subrange(after as int, kept_end as int);
    let ghost head = chars@.subrange(kept_end as int, tail_from as int);
    let ghost tail = chars@.subrange(tail_from as int, len as int);
    proof {
        assert(fraction =~= f4 + head + tail);
        if all_digits(fraction) {
            lemma_all_digits_part(fraction, 0, kept_end - after);
            lemma_all_digits_part(fraction, kept_end - after, tail_from - after);
            lemma_all_digits_part(fraction, tail_from - after, len - after);
            assert(fraction.subrange(0, kept_end - after) =~= f4);
            assert(fraction.subrange(kept_end - after, tail_from - after) =~= head);
            assert(fraction.subrange(tail_from - after, len - after) =~= tail);
        }
        if all_digits(f4) && all_digits(head) && all_digits(tail) {
            assert forall|i: int| 0 <= i < fraction.len() implies is_digit(
                #[trigger] fraction[i],
            ) by {
                if i < f4.len() {
                    assert(fraction[i] == f4[i]);
                } else if i < f4.len() + head.len() {
                    assert(fraction[i] == head[i - f4.len()]);
                } else {
                    assert(fraction[i] == tail[i - f4.len() - head.len()]);
                }
            }
            reveal_with_fuel(pow10, 5);
            lemma_decimal_value_bound(f4);
            if long {
                assert(fraction.take(4) =~= f4);
                assert(head.drop_last() =~= Seq::<char>::empty());
                assert(decimal_value(head) == decimal_value(head.drop_last()) * 10 + digit_value(
                    head.last(),
                ));
                assert(head.last() == fraction[4]);
                assert(is_digit(head[0]));
                assert(fraction.skip(5) =~= tail);
            } else {
                assert(fraction =~= f4);
                assert(head =~= Seq::<char>::empty());
            }
        }
    }
    let (Reading::Value(kept), Reading::Value(fifth)) = (kept, fifth) else {
        return None;
    };
    let beyond = match beyond {
        Reading::NotDigits => {
            return None;
        },
        Reading::TooLarge => true,
        Reading::Value(_) => false,
    };
    let digits = kept_end - after;
    let scale: u64 = if digits == 0 {
        10000
    } else if digits == 1 {
        1000
    } else if digits == 2 {
        100
    } else if digits == 3 {
        10
    } else {
        1
    };
    proof {
        reveal_with_fuel(pow10, 5);
        assert(scale == pow10((4 - digits) as nat));
        assert(kept * scale <= 9999 * 10000) by (nonlinear_arith)
            requires
                kept <= 9999,
                scale <= 10000,
        ;
        if long {
            assert(fraction.take(4) =~= f4);
            assert(fraction.skip(5) =~= tail);
            assert(kept * scale == kept) by (nonlinear_arith)
                requires
                    scale == 1,
            ;
        } else {
            assert(fraction =~= f4);
        }
    }
    Some((kept * scale, fifth, beyond))
}

/// The amount that `chars` writes, in ledger units, if it writes one that a
/// transaction can carry.
pub fn parse_amount(chars: &Vec<char>) -> (units: Option<u64>)
    ensures
        units == match amount_value(chars@) {
            Some(n) => if n <= u64::MAX {
                Some(n as u64)
            } else {
                None
            },
            None => None,
        },
{
    let (from, point, after) = number_parts(chars);
    if point == from && after == chars.len() {
        return None;
    }
    let whole = read_digits(chars, from, point, WHOLE_MAX);
    let fraction = read_fraction(chars, after);
    proof {
        if whole != Reading::NotDigits && fraction is Some {
            lemma_units_by_digits(
                chars@.subrange(from as int, point as int),
                chars@.subrange(after as int, chars.len() as int),
            );
        }
    }
    match (whole, fraction) {
        (Reading::Value(whole), Some((kept, fifth, beyond))) => {
            let base: u128 = whole as u128 * 10000 + kept as u128;
            let up = chars.len() - after > 4 && (fifth > 5 || (fifth == 5 && (beyond || base % 2
                == 1)));
            let units: u128 = if up {
                base + 1
            } else {
                base
            };
            if units > 0xffff_ffff_ffff_ffff {
                None
            } else {
                Some(units as u64)
            }
        },
        _ => None,
    }
}

/// A balance as text with exactly four fractional digits.
pub fn format_amount(units: i64) -> (text: String)
    ensures
        text@ == amount_text(units as int),
{
    let mut out = String::new();
    let size: u64 = if units < 0 {
        out.append("-");
        (-(units as i128)) as u64
    } else {
        units as u64
    };
    let fraction = size % UNITS_PER_WHOLE;
    push_decimal(&mut out, size / UNITS_PER_WHOLE);
    out.append(".");
    out.append(digit_text((fraction / 1000) % 10));
    out.append(digit_text((fraction / 100) % 10));
    out.append(digit_text((fraction / 10) % 10));
    out.append(digit_text(fraction % 10));
    proof {
        reveal_strlit("-");
        reveal_strlit(".");
        assert(size == magnitude(units as int));
        assert(out@ =~= amount_text(units as int));
    }
    out
}

} // verus!
