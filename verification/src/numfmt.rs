//! Rendering of scaled numbers as display strings.
//!
//! A number is rendered with a caller-chosen count of fraction digits,
//! rounding half away from zero, and with an optional thousands separator
//! inserted between groups of three integral digits.  The exact character
//! sequence produced is pinned down by [`format_scaled_spec`] and
//! [`format_int_spec`].

use vstd::prelude::*;
use crate::fixed::{pow10, fixed_ok, lemma_pow10_pos, FIXED_MAX, FIXED_SCALE};

verus! {

/// Largest count of fraction digits the renderer honours.
pub const MAX_FRACTION_DIGITS: u32 = 9;

/// Largest magnitude the renderer accepts: wide enough for every stored
/// value and for derived statistics such as a standard deviation.
pub const FORMAT_ABS_MAX: i64 = 100_000_000_000_000;

/// The character for one decimal digit value.
pub open spec fn digit_char(d: int) -> char {
    if d == 0 {
        '0'
    } else if d == 1 {
        '1'
    } else if d == 2 {
        '2'
    } else if d == 3 {
        '3'
    } else if d == 4 {
        '4'
    } else if d == 5 {
        '5'
    } else if d == 6 {
        '6'
    } else if d == 7 {
        '7'
    } else if d == 8 {
        '8'
    } else {
        '9'
    }
}

/// Decimal digit values of `n`, most significant first (a single `0` for zero).
pub open spec fn digits_of(n: nat) -> Seq<u8>
    decreases n,
{
    if n < 10 {
        seq![n as u8]
    } else {
        digits_of(n / 10) + seq![(n % 10) as u8]
    }
}

/// Whether the separator goes in front of digit `i` of `len` digits:
/// between groups of three, counted from the right.
pub open spec fn sep_before(len: int, i: int) -> bool {
    i > 0 && (len - i) % 3 == 0
}

/// The first `i` digits of `ds` rendered with separator `sep`.
pub open spec fn render_upto(ds: Seq<u8>, sep: Seq<char>, i: int) -> Seq<char>
    decreases i,
{
    if i <= 0 {
        Seq::<char>::empty()
    } else {
        render_upto(ds, sep, i - 1) + (if sep_before(ds.len() as int, i - 1) {
            sep
        } else {
            Seq::<char>::empty()
        }) + seq![digit_char(ds[i - 1] as int)]
    }
}

/// All digits of `ds` rendered with separator `sep`.
pub open spec fn render_grouped(ds: Seq<u8>, sep: Seq<char>) -> Seq<char> {
    render_upto(ds, sep, ds.len() as int)
}

/// Exactly `dd` digit characters for the fraction `fp`, left-padded with zeros.
pub open spec fn frac_chars(fp: nat, dd: nat) -> Seq<char>
    decreases dd,
{
    if dd == 0 {
        Seq::<char>::empty()
    } else {
        frac_chars(fp / 10, (dd - 1) as nat) + seq![digit_char((fp % 10) as int)]
    }
}

/// Magnitude of scaled value `m` rescaled to `dd` fraction digits,
/// rounding half away from zero.
pub open spec fn rounded_abs(m: int, dd: nat) -> int {
    let a = if m < 0 {
        -m
    } else {
        m
    };
    if dd <= 4 {
        (a + pow10((4 - dd) as nat) / 2) / pow10((4 - dd) as nat)
    } else {
        a * pow10((dd - 4) as nat)
    }
}

/// Display form of the scaled value `m` with `dd` fraction digits and
/// separator `sep`: optional minus, grouped integral digits, and a dot
/// followed by the fraction digits when `dd > 0`.  A value that rounds to
/// zero carries no sign.
pub open spec fn format_scaled_spec(m: int, dd: nat, sep: Seq<char>) -> Seq<char> {
    let r = rounded_abs(m, dd);
    let ip = r / pow10(dd);
    let fp = r % pow10(dd);
    (if m < 0 && r != 0 {
        seq!['-']
    } else {
        Seq::<char>::empty()
    }) + render_grouped(digits_of(ip as nat), sep) + (if dd > 0 {
        seq!['.'] + frac_chars(fp as nat, dd)
    } else {
        Seq::<char>::empty()
    })
}

/// Display form of the plain integer `w` with separator `sep`.
pub open spec fn format_int_spec(w: int, sep: Seq<char>) -> Seq<char> {
    let a = if w < 0 {
        -w
    } else {
        w
    };
    (if w < 0 {
        seq!['-']
    } else {
        Seq::<char>::empty()
    }) + render_grouped(digits_of(a as nat), sep)
}

/// Count of integral digits that the display of scaled `m` with `dd`
/// fraction digits shows.
pub open spec fn integral_digit_count(m: int, dd: nat) -> int {
    digits_of((rounded_abs(m, dd) / pow10(dd)) as nat).len() as int
}

/// A single-character string per digit value.
fn digit_str(d: u8) -> (r: &'static str)
    requires
        d < 10,
    ensures
        r@ =~= seq![digit_char(d as int)],
        r.is_ascii(),
{
    if d == 0 {
        let s = "0";
        proof {
            reveal_strlit("0");
        }
        s
    } else if d == 1 {
        let s = "1";
        proof {
            reveal_strlit("1");
        }
        s
    } else if d == 2 {
        let s = "2";
        proof {
            reveal_strlit("2");
        }
        s
    } else if d == 3 {
        let s = "3";
        proof {
            reveal_strlit("3");
        }
        s
    } else if d == 4 {
        let s = "4";
        proof {
            reveal_strlit("4");
        }
        s
    } else if d == 5 {
        let s = "5";
        proof {
            reveal_strlit("5");
        }
        s
    } else if d == 6 {
        let s = "6";
        proof {
            reveal_strlit("6");
        }
        s
    } else if d == 7 {
        let s = "7";
        proof {
            reveal_strlit("7");
        }
        s
    } else if d == 8 {
        let s = "8";
        proof {
            reveal_strlit("8");
        }
        s
    } else {
        let s = "9";
        proof {
            reveal_strlit("9");
        }
        s
    }
}

/// Digit values of `n`, most significant first.
fn digits_vec(n: u64) -> (r: Vec<u8>)
    ensures
        r@ == digits_of(n as nat),
        r@.len() >= 1,
    decreases n,
{
    if n < 10 {
        let mut v: Vec<u8> = Vec::new();
        v.push(n as u8);
        proof {
            assert(v@ =~= digits_of(n as nat));
        }
        v
    } else {
        let mut v = digits_vec(n / 10);
        v.push((n % 10) as u8);
        proof {
            assert(v@ =~= digits_of(n as nat));
        }
        v
    }
}

/// Render digit values with the separator between groups of three.
fn render_grouped_exec(ds: &Vec<u8>, sep: &str) -> (r: String)
    requires
        forall|i: int| 0 <= i < ds@.len() ==> #[trigger] ds@[i] < 10,
    ensures
        r@ == render_grouped(ds@, sep@),
{
    let mut out = String::new();
    let n = ds.len();
    let mut i: usize = 0;
    while i < n
        invariant
            n == ds@.len(),
            i <= n,
            forall|k: int| 0 <= k < ds@.len() ==> #[trigger] ds@[k] < 10,
            out@ == render_upto(ds@, sep@, i as int),
        decreases n - i,
    {
        if i > 0 && (n - i) % 3 == 0 {
            out.append(sep);
        }
        out.append(digit_str(ds[i]));
        i = i + 1;
    }
    out
}

/// `10^n` as a `u64`.
fn pow10_u64(n: u32) -> (r: u64)
    requires
        n <= 17,
    ensures
        r == pow10(n as nat),
        r >= 1,
{
    proof {
        reveal_with_fuel(pow10, 18);
    }
    let mut r: u64 = 1;
    let mut i: u32 = 0;
    while i < n
        invariant
            i <= n <= 17,
            r == pow10(i as nat),
            r >= 1,
        decreases n - i,
    {
        proof {
            lemma_pow10_le_17(n as nat);
            lemma_pow10_mono(i as nat + 1, n as nat);
        }
        r = r * 10;
        i = i + 1;
    }
    r
}

proof fn lemma_pow10_mono(a: nat, b: nat)
    requires
        a <= b,
    ensures
        pow10(a) <= pow10(b),
    decreases b,
{
    if a < b {
        lemma_pow10_mono(a, (b - 1) as nat);
        lemma_pow10_pos((b - 1) as nat);
    }
}

proof fn lemma_pow10_le_17(n: nat)
    requires
        n <= 17,
    ensures
        pow10(n) <= 100_000_000_000_000_000,
{
    reveal_with_fuel(pow10, 18);
    lemma_pow10_mono(n, 17);
}

/// Exactly `dd` fraction digit characters of `fp`.
fn frac_chars_exec(fp: u64, dd: u32) -> (r: String)
    ensures
        r@ == frac_chars(fp as nat, dd as nat),
    decreases dd,
{
    if dd == 0 {
        String::new()
    } else {
        let head = frac_chars_exec(fp / 10, dd - 1);
        head.concat(digit_str((fp % 10) as u8))
    }
}

/// Render the scaled value `m` with `dd` fraction digits and separator `sep`.
pub fn format_scaled(m: i64, dd: u32, sep: &str) -> (r: String)
    requires
        -FORMAT_ABS_MAX <= m <= FORMAT_ABS_MAX,
        dd <= MAX_FRACTION_DIGITS,
    ensures
        r@ == format_scaled_spec(m as int, dd as nat, sep@),
{
    let neg = m < 0;
    let a: u64 = if m < 0 {
        (-m) as u64
    } else {
        m as u64
    };
    let r: u64 = if dd <= 4 {
        let p = pow10_u64(4 - dd);
        proof {
            lemma_pow10_le_17((4 - dd) as nat);
        }
        (a + p / 2) / p
    } else {
        let p = pow10_u64(dd - 4);
        proof {
            lemma_pow10_mono((dd - 4) as nat, 5);
            reveal_with_fuel(pow10, 6);
            assert(a * p <= FORMAT_ABS_MAX * 100_000) by (nonlinear_arith)
                requires
                    0 <= a <= FORMAT_ABS_MAX,
                    1 <= p <= 100_000,
            ;
        }
        a * p
    };
    assert(r == rounded_abs(m as int, dd as nat));
    let pd = pow10_u64(dd);
    let ip = r / pd;
    let fp = r % pd;
    let sign: &str = if neg && r != 0 {
        let s = "-";
        proof {
            reveal_strlit("-");
        }
        s
    } else {
        let s = "";
        proof {
            reveal_strlit("");
        }
        s
    };
    let ds = digits_vec(ip);
    proof {
        lemma_digits_of_bounded((ip as u64) as nat);
    }
    let mut out = sign.to_owned();
    let grouped = render_grouped_exec(&ds, sep);
    out.append(grouped.as_str());
    if dd > 0 {
        let dot = ".";
        proof {
            reveal_strlit(".");
        }
        out.append(dot);
        let fr = frac_chars_exec(fp, dd);
        out.append(fr.as_str());
    }
    out
}

/// Every digit value `digits_of` yields is below ten.
pub proof fn lemma_digits_of_bounded(n: nat)
    ensures
        forall|i: int| 0 <= i < digits_of(n).len() ==> #[trigger] digits_of(n)[i] < 10,
    decreases n,
{
    if n < 10 {
        assert(digits_of(n) =~= seq![n as u8]);
    } else {
        lemma_digits_of_bounded(n / 10);
        assert forall|i: int| 0 <= i < digits_of(n).len() implies #[trigger] digits_of(n)[i]
            < 10 by {
            if i < digits_of(n / 10).len() {
                assert(digits_of(n)[i] == digits_of(n / 10)[i]);
            } else {
                assert(digits_of(n)[i] == (n % 10) as u8);
            }
        }
    }
}

/// Count of decimal digits of `n`.
pub fn int_digit_count(n: u64) -> (r: usize)
    ensures
        r == digits_of(n as nat).len(),
{
    let ds = digits_vec(n);
    ds.len()
}

/// Render the plain integer `w` with separator `sep`.
pub fn format_int(w: i64, sep: &str) -> (r: String)
    requires
        w > i64::MIN,
    ensures
        r@ == format_int_spec(w as int, sep@),
{
    let a: u64 = if w < 0 {
        (-w) as u64
    } else {
        w as u64
    };
    let sign: &str = if w < 0 {
        let s = "-";
        proof {
            reveal_strlit("-");
        }
        s
    } else {
        let s = "";
        proof {
            reveal_strlit("");
        }
        s
    };
    let ds = digits_vec(a);
    proof {
        lemma_digits_of_bounded(a as nat);
    }
    let mut out = sign.to_owned();
    let grouped = render_grouped_exec(&ds, sep);
    out.append(grouped.as_str());
    out
}

/// Count of integral digits shown for scaled `m` at `dd` fraction digits.
pub fn count_integral_digits(m: i64, dd: u32) -> (r: usize)
    requires
        -FORMAT_ABS_MAX <= m <= FORMAT_ABS_MAX,
        dd <= MAX_FRACTION_DIGITS,
    ensures
        r == integral_digit_count(m as int, dd as nat),
{
    let a: u64 = if m < 0 {
        (-m) as u64
    } else {
        m as u64
    };
    let r: u64 = if dd <= 4 {
        let p = pow10_u64(4 - dd);
        proof {
            lemma_pow10_le_17((4 - dd) as nat);
        }
        (a + p / 2) / p
    } else {
        let p = pow10_u64(dd - 4);
        proof {
            lemma_pow10_mono((dd - 4) as nat, 5);
            reveal_with_fuel(pow10, 6);
            assert(a * p <= FORMAT_ABS_MAX * 100_000) by (nonlinear_arith)
                requires
                    0 <= a <= FORMAT_ABS_MAX,
                    1 <= p <= 100_000,
            ;
        }
        a * p
    };
    let pd = pow10_u64(dd);
    let ip = r / pd;
    let ds = digits_vec(ip);
    ds.len()
}

} // verus!
