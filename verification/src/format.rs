//! Fixed-point text for a time: whole seconds, a point, and one to three
//! decimals, rounded to the nearest step with halves going up.

use vstd::prelude::*;
use vstd::string::*;

verus! {

/// How many decimals of a second a text shows.
#[derive(Clone, Copy, Debug, PartialEq, Eq, Structural)]
pub enum Precision {
    /// One decimal: the running display.
    Tenths,
    /// Two decimals: the cells of the history table.
    Hundredths,
    /// Three decimals: a finished time.
    Millis,
}

impl Precision {
    /// Number of digits after the point.
    pub open spec fn places(self) -> nat {
        match self {
            Precision::Tenths => 1,
            Precision::Hundredths => 2,
            Precision::Millis => 3,
        }
    }

    /// Nanoseconds in one step of the last digit shown.
    pub open spec fn unit(self) -> nat {
        match self {
            Precision::Tenths => 100_000_000,
            Precision::Hundredths => 10_000_000,
            Precision::Millis => 1_000_000,
        }
    }

    /// Steps of the last digit in one second.
    pub open spec fn per_second(self) -> nat {
        match self {
            Precision::Tenths => 10,
            Precision::Hundredths => 100,
            Precision::Millis => 1000,
        }
    }
}

/// The character of a decimal digit.
pub open spec fn digit(d: nat) -> char
    recommends
        d < 10,
{
    if d == 0 {
        '0'
    } else if d == 1 {
        '1'
    } else if d == 2 {
        '2'
    } else if d == 3 {
        '3'
    } else if d == 4 {
        '4'
    } else if d == 5 {
        '5'
    } else if d == 6 {
        '6'
    } else if d == 7 {
        '7'
    } else if d == 8 {
        '8'
    } else {
        '9'
    }
}

/// Whether `c` is one of the ten decimal digits.
pub open spec fn is_digit(c: char) -> bool {
    exists|d: nat| d < 10 && c == #[trigger] digit(d)
}

/// `n` in decimal, without leading zeros.
pub open spec fn decimal(n: nat) -> Seq<char>
    decreases n,
{
    if n < 10 {
        seq![digit(n)]
    } else {
        decimal(n / 10).push(digit(n % 10))
    }
}

/// The last `width` decimal digits of `n`, with leading zeros where `n` is
/// shorter.
pub open spec fn padded(n: nat, width: nat) -> Seq<char>
    decreases width,
{
    if width == 0 {
        Seq::empty()
    } else {
        padded(n / 10, (width - 1) as nat).push(digit(n % 10))
    }
}

/// `nanos` in steps of the last digit shown, rounded to the nearest step; a
/// time halfway between two steps goes up.
pub open spec fn rounded(nanos: nat, precision: Precision) -> nat {
    (nanos + precision.unit() / 2) / precision.unit()
}

/// The text of a time of `nanos` nanoseconds: its whole seconds, a point, and
/// as many decimals as `precision` asks for.
pub open spec fn seconds_text(nanos: nat, precision: Precision) -> Seq<char> {
    let steps = rounded(nanos, precision);
    decimal(steps / precision.per_second()) + seq!['.'] + padded(
        steps % precision.per_second(),
        precision.places(),
    )
}

/// The shape `<digits>.<digits>` with exactly `places` digits after the point
/// and at least one before it.
pub open spec fn is_fixed_point(s: Seq<char>, places: nat) -> bool {
    &&& s.len() >= places + 2
    &&& s[s.len() - places - 1] == '.'
    &&& forall|i: int|
        0 <= i < s.len() && i != s.len() - places - 1 ==> is_digit(#[trigger] s[i])
}

/// A decimal numeral is never empty and holds digits only.
pub proof fn lemma_decimal_digits(n: nat)
    ensures
        decimal(n).len() >= 1,
        forall|i: int| 0 <= i < decimal(n).len() ==> is_digit(#[trigger] decimal(n)[i]),
    decreases n,
{
    if n < 10 {
        assert(is_digit(digit(n)));
    } else {
        lemma_decimal_digits(n / 10);
        assert(is_digit(digit(n % 10)));
    }
}

/// A padded numeral has the width asked for and holds digits only.
pub proof fn lemma_padded_digits(n: nat, width: nat)
    ensures
        padded(n, width).len() == width,
        forall|i: int| 0 <= i < width ==> is_digit(#[trigger] padded(n, width)[i]),
    decreases width,
{
    if width > 0 {
        lemma_padded_digits(n / 10, (width - 1) as nat);
        assert(is_digit(digit(n % 10)));
    }
}

/// Whatever the time, its text has the fixed-point shape of its precision:
/// digits, one point, and the precision's number of decimals.
pub proof fn lemma_seconds_text_shape(nanos: nat, precision: Precision)
    ensures
        is_fixed_point(seconds_text(nanos, precision), precision.places()),
{
    let steps = rounded(nanos, precision);
    let whole = decimal(steps / precision.per_second());
    let frac = padded(steps % precision.per_second(), precision.places());
    let s = seconds_text(nanos, precision);
    lemma_decimal_digits(steps / precision.per_second());
    lemma_padded_digits(steps % precision.per_second(), precision.places());
    assert(s.len() == whole.len() + 1 + frac.len());
    assert forall|i: int| 0 <= i < s.len() && i != s.len() - precision.places() - 1 implies is_digit(
        #[trigger] s[i],
    ) by {
        if i < whole.len() {
            assert(s[i] == whole[i]);
        } else {
            assert(s[i] == frac[i - whole.len() - 1]);
        }
    }
}

/// The one-character text of a decimal digit.
fn digit_text(d: u64) -> (r: &'static str)
    requires
        d < 10,
    ensures
        r@ == seq![digit(d as nat)],
{
    proof {
        reveal_strlit("0");
        reveal_strlit("1");
        reveal_strlit("2");
        reveal_strlit("3");
        reveal_strlit("4");
        reveal_strlit("5");
        reveal_strlit("6");
        reveal_strlit("7");
        reveal_strlit("8");
        reveal_strlit("9");
    }
    let r = if d == 0 {
        "0"
    } else if d == 1 {
        "1"
    } else if d == 2 {
        "2"
    } else if d == 3 {
        "3"
    } else if d == 4 {
        "4"
    } else if d == 5 {
        "5"
    } else if d == 6 {
        "6"
    } else if d == 7 {
        "7"
    } else if d == 8 {
        "8"
    } else {
        "9"
    };
    assert(r@ =~= seq![digit(d as nat)]);
    r
}

/// Appends `n` in decimal to `out`.
fn push_decimal(out: &mut String, n: u64)
    ensures
        final(out)@ == old(out)@ + decimal(n as nat),
    decreases n,
{
    if n >= 10 {
        push_decimal(out, n / 10);
    }
    out.append(digit_text(n % 10));
    assert(out@ =~= old(out)@ + decimal(n as nat));
}

/// Appends the last `width` digits of `n` to `out`, zeros in front.
fn push_padded(out: &mut String, n: u64, width: u8)
    ensures
        final(out)@ == old(out)@ + padded(n as nat, width as nat),
    decreases width,
{
    if width > 0 {
        push_padded(out, n / 10, width - 1);
        out.append(digit_text(n % 10));
    }
    assert(out@ =~= old(out)@ + padded(n as nat, width as nat));
}

/// Writes a time of `nanos` nanoseconds as seconds with the decimals of
/// `precision`, rounded to the nearest step.
pub fn format_seconds(nanos: u64, precision: Precision) -> (r: String)
    ensures
        r@ == seconds_text(nanos as nat, precision),
        is_fixed_point(r@, precision.places()),
{
    let (unit, per_second, places): (u128, u128, u8) = match precision {
        Precision::Tenths => (100_000_000, 10, 1),
        Precision::Hundredths => (10_000_000, 100, 2),
        Precision::Millis => (1_000_000, 1000, 3),
    };
    let steps: u128 = (nanos as u128 + unit / 2) / unit;
    let whole: u64 = (steps / per_second) as u64;
    let frac: u64 = (steps % per_second) as u64;
    let mut out = String::new();
    push_decimal(&mut out, whole);
    out.append(".");
    push_padded(&mut out, frac, places);
    proof {
        reveal_strlit(".");
        assert("."@ =~= seq!['.']);
        assert(out@ =~= seconds_text(nanos as nat, precision));
        lemma_seconds_text_shape(nanos as nat, precision);
    }
    out
}

/// The text of a table cell: a time with two decimals, a dash where there is
/// none.
pub open spec fn cell(value: Option<u64>) -> Seq<char> {
    match value {
        Some(v) => seconds_text(v as nat, Precision::Hundredths),
        None => seq!['-'],
    }
}

/// Writes a table cell: the time with two decimals, or a dash for a value
/// that does not exist yet.
pub fn cell_text(value: Option<u64>) -> (r: String)
    ensures
        r@ == cell(value),
{
    match value {
        Some(v) => format_seconds(v, Precision::Hundredths),
        None => {
            proof {
                reveal_strlit("-");
            }
            let dash = String::from_str("-");
            assert(dash@ =~= seq!['-']);
            dash
        },
    }
}

} // verus!
