//! Verified rendering of numbers and percentages for report text.
//!
//! Every string the engine puts into a comparison result is specified here as
//! a sequence of characters, so the exact report text is part of each
//! function's contract.

use vstd::prelude::*;
use vstd::string::StringExecFns;

verus! {

/// The character for a single decimal digit.
pub open spec fn digit_char(d: nat) -> char {
    if d == 0 {
        '0'
    } else if d == 1 {
        '1'
    } else if d == 2 {
        '2'
    } else if d == 3 {
        '3'
    } else if d == 4 {
        '4'
    } else if d == 5 {
        '5'
    } else if d == 6 {
        '6'
    } else if d == 7 {
        '7'
    } else if d == 8 {
        '8'
    } else {
        '9'
    }
}

/// The decimal representation of a natural number, most significant digit
/// first, with no leading zeros (zero itself is rendered as "0").
pub open spec fn dec_digits(n: nat) -> Seq<char>
    decreases n,
{
    if n < 10 {
        seq![digit_char(n)]
    } else {
        dec_digits(n / 10).push(digit_char(n % 10))
    }
}

/// The decimal representation of an integer, with a leading minus sign when
/// it is negative.
pub open spec fn int_digits(i: int) -> Seq<char> {
    if i < 0 {
        seq!['-'] + dec_digits((-i) as nat)
    } else {
        dec_digits(i as nat)
    }
}

fn digit_str(d: u128) -> (s: &'static str)
    requires
        d < 10,
    ensures
        s@ == seq![digit_char(d as nat)],
{
    proof {
        reveal_strlit("0");
        reveal_strlit("1");
        reveal_strlit("2");
        reveal_strlit("3");
        reveal_strlit("4");
        reveal_strlit("5");
        reveal_strlit("6");
        reveal_strlit("7");
        reveal_strlit("8");
        reveal_strlit("9");
    }
    if d == 0 {
        proof { assert("0"@ =~= seq![digit_char(d as nat)]); }
        "0"
    } else if d == 1 {
        proof { assert("1"@ =~= seq![digit_char(d as nat)]); }
        "1"
    } else if d == 2 {
        proof { assert("2"@ =~= seq![digit_char(d as nat)]); }
        "2"
    } else if d == 3 {
        proof { assert("3"@ =~= seq![digit_char(d as nat)]); }
        "3"
    } else if d == 4 {
        proof { assert("4"@ =~= seq![digit_char(d as nat)]); }
        "4"
    } else if d == 5 {
        proof { assert("5"@ =~= seq![digit_char(d as nat)]); }
        "5"
    } else if d == 6 {
        proof { assert("6"@ =~= seq![digit_char(d as nat)]); }
        "6"
    } else if d == 7 {
        proof { assert("7"@ =~= seq![digit_char(d as nat)]); }
        "7"
    } else if d == 8 {
        proof { assert("8"@ =~= seq![digit_char(d as nat)]); }
        "8"
    } else {
        proof { assert("9"@ =~= seq![digit_char(d as nat)]); }
        "9"
    }
}

/// Renders a natural number in decimal.
pub fn fmt_u128(n: u128) -> (s: String)
    ensures
        s@ == dec_digits(n as nat),
    decreases n,
{
    if n < 10 {
        String::from_str(digit_str(n))
    } else {
        let mut s = fmt_u128(n / 10);
        s.append(digit_str(n % 10));
        proof {
            assert(dec_digits(n as nat) == dec_digits(n as nat / 10).push(
                digit_char(n as nat % 10),
            ));
            assert(dec_digits(n as nat / 10).push(digit_char(n as nat % 10)) =~= dec_digits(
                n as nat / 10,
            ) + seq![digit_char(n as nat % 10)]);
        }
        s
    }
}

/// Renders a `usize` in decimal.
pub fn fmt_usize(n: usize) -> (s: String)
    ensures
        s@ == dec_digits(n as nat),
{
    fmt_u128(n as u128)
}

/// Renders a `u64` in decimal.
pub fn fmt_u64(n: u64) -> (s: String)
    ensures
        s@ == dec_digits(n as nat),
{
    fmt_u128(n as u128)
}

/// Renders an `i16` in decimal, with a minus sign when negative.
pub fn fmt_i16(n: i16) -> (s: String)
    ensures
        s@ == int_digits(n as int),
{
    if n < 0 {
        let wide: i64 = -(n as i64);
        proof { reveal_strlit("-"); }
        let mut s = String::from_str("-");
        let digits = fmt_u128(wide as u128);
        s.append(digits.as_str());
        proof {
            assert("-"@ =~= seq!['-']);
        }
        s
    } else {
        fmt_u128(n as u128)
    }
}

/// A percentage in tenths of a percent: the nearest multiple of 0.1% to
/// `matched / total`, rounding halves up.
pub open spec fn percent_tenths(matched: nat, total: nat) -> nat
    recommends
        total > 0,
{
    (2000 * matched / total + 1) / 2
}

/// The text of `percent_tenths` with one decimal place, e.g. "50.0".
pub open spec fn percent_tenths_chars(matched: nat, total: nat) -> Seq<char> {
    dec_digits(percent_tenths(matched, total) / 10) + seq!['.'] + seq![
        digit_char(percent_tenths(matched, total) % 10),
    ]
}

/// Renders `matched / total` as a percentage with one decimal place.
pub fn fmt_percent_tenths(matched: usize, total: usize) -> (s: String)
    requires
        total > 0,
    ensures
        s@ == percent_tenths_chars(matched as nat, total as nat),
{
    let pt: u128 = (2000u128 * (matched as u128) / (total as u128) + 1) / 2;
    let mut s = fmt_u128(pt / 10);
    proof { reveal_strlit("."); }
    s.append(".");
    s.append(digit_str(pt % 10));
    proof {
        assert("."@ =~= seq!['.']);
    }
    s
}

/// A percentage in hundredths of a percent, rounding halves up.
pub open spec fn percent_hundredths(matched: nat, total: nat) -> nat
    recommends
        total > 0,
{
    (20000 * matched / total + 1) / 2
}

/// The text of `percent_hundredths` with two decimal places, e.g. "99.05".
pub open spec fn percent_hundredths_chars(matched: nat, total: nat) -> Seq<char> {
    dec_digits(percent_hundredths(matched, total) / 100) + seq!['.'] + seq![
        digit_char(percent_hundredths(matched, total) % 100 / 10),
        digit_char(percent_hundredths(matched, total) % 10),
    ]
}

/// Renders `matched / total` as a percentage with two decimal places.
pub fn fmt_percent_hundredths(matched: usize, total: usize) -> (s: String)
    requires
        total > 0,
    ensures
        s@ == percent_hundredths_chars(matched as nat, total as nat),
{
    let ph: u128 = (20000u128 * (matched as u128) / (total as u128) + 1) / 2;
    let mut s = fmt_u128(ph / 100);
    proof { reveal_strlit("."); }
    s.append(".");
    s.append(digit_str(ph % 100 / 10));
    s.append(digit_str(ph % 10));
    proof {
        assert("."@ =~= seq!['.']);
        assert(ph as nat % 100 / 10 == percent_hundredths(matched as nat, total as nat) % 100 / 10);
    }
    s
}

/// The given names joined with ", " between them.
pub open spec fn join_comma(names: Seq<Seq<char>>) -> Seq<char>
    decreases names.len(),
{
    if names.len() == 0 {
        Seq::empty()
    } else if names.len() == 1 {
        names[0]
    } else {
        join_comma(names.drop_last()) + ", "@ + names.last()
    }
}

/// Joins a list of names with ", ".
pub fn join_names(names: &Vec<String>) -> (s: String)
    ensures
        s@ == join_comma(names.deep_view()),
{
    let ghost dv = names.deep_view();
    let mut s = String::new();
    let mut i: usize = 0;
    while i < names.len()
        invariant
            i <= names.len(),
            dv == names.deep_view(),
            dv.len() == names@.len(),
            forall|j: int| 0 <= j < dv.len() ==> dv[j] == names@[j]@,
            s@ == join_comma(dv.take(i as int)),
        decreases names.len() - i,
    {
        if i > 0 {
            s.append(", ");
        }
        s.append(names[i].as_str());
        proof {
            let taken = dv.take(i as int + 1);
            assert(taken.drop_last() =~= dv.take(i as int));
            assert(taken.last() == dv[i as int]);
            assert(s@ =~= join_comma(taken));
        }
        i = i + 1;
    }
    proof {
        assert(dv.take(names@.len() as int) =~= dv);
    }
    s
}

} // verus!
