//! Scaled decimal numbers.
//!
//! Every numeric value handled by the engine is a decimal with at most
//! [`FIXED_SCALE_DIGITS`](crate::FIXED_SCALE_DIGITS) fractional digits,
//! held as an `i64` equal to the value multiplied by [`FIXED_SCALE`].
//! Magnitudes are bounded by [`FIXED_MAX`] so that sums and squared
//! deviations over a whole column fit in `i128`.

use vstd::prelude::*;
use vstd::string::StringSliceAdditionalSpecFns;

verus! {

/// Scaling factor: a [`Fixed`] holding `s` denotes the value `s / FIXED_SCALE`.
pub const FIXED_SCALE: i64 = 10_000;

/// Bound on the magnitude of the scaled representation (10^12, that is
/// a denoted magnitude of at most 10^8).
pub const FIXED_MAX: i64 = 1_000_000_000_000;

/// `10^n` as a mathematical integer.
pub open spec fn pow10(n: nat) -> int
    decreases n,
{
    if n == 0 {
        1
    } else {
        10 * pow10((n - 1) as nat)
    }
}

/// A decimal number with four fractional digits, stored scaled by `FIXED_SCALE`.
#[derive(Clone, Copy, PartialEq, Eq, Structural, Debug)]
pub struct Fixed {
    pub scaled: i64,
}

/// The representation bound every stored number obeys.
pub open spec fn fixed_ok(m: int) -> bool {
    -FIXED_MAX <= m <= FIXED_MAX
}

impl Fixed {
    pub open spec fn wf(self) -> bool {
        fixed_ok(self.scaled as int)
    }

    /// Build a number from an already-scaled representation.
    pub fn from_scaled(scaled: i64) -> (r: Option<Fixed>)
        ensures
            fixed_ok(scaled as int) ==> r == Some(Fixed { scaled }),
            !fixed_ok(scaled as int) ==> r is None,
            r is Some ==> r->0.wf(),
    {
        if -FIXED_MAX <= scaled && scaled <= FIXED_MAX {
            Some(Fixed { scaled })
        } else {
            None
        }
    }
}

pub proof fn lemma_pow10_pos(n: nat)
    ensures
        pow10(n) >= 1,
    decreases n,
{
    if n > 0 {
        lemma_pow10_pos((n - 1) as nat);
    }
}

/// Does the byte encode an ASCII decimal digit?
pub open spec fn is_digit_byte(b: u8) -> bool {
    48 <= b <= 57
}

pub open spec fn digit_byte_val(b: u8) -> int {
    b - 48
}

pub open spec fn all_digit_bytes(s: Seq<u8>) -> bool {
    forall|i: int| 0 <= i < s.len() ==> is_digit_byte(#[trigger] s[i])
}

/// The non-negative integer denoted by a sequence of ASCII digits.
pub open spec fn digits_val(s: Seq<u8>) -> int
    decreases s.len(),
{
    if s.len() == 0 {
        0
    } else {
        digits_val(s.drop_last()) * 10 + digit_byte_val(s.last())
    }
}

pub proof fn lemma_digits_val_nonneg(s: Seq<u8>)
    requires
        all_digit_bytes(s),
    ensures
        digits_val(s) >= 0,
    decreases s.len(),
{
    if s.len() > 0 {
        assert(all_digit_bytes(s.drop_last())) by {
            assert(forall|i: int|
                0 <= i < s.len() - 1 ==> is_digit_byte(#[trigger] s.drop_last()[i]));
        }
        lemma_digits_val_nonneg(s.drop_last());
    }
}

/// A string of `n` digits denotes less than `10^n`.
pub proof fn lemma_digits_val_upper(s: Seq<u8>)
    requires
        all_digit_bytes(s),
    ensures
        digits_val(s) < pow10(s.len()),
    decreases s.len(),
{
    if s.len() == 0 {
    } else {
        assert(all_digit_bytes(s.drop_last())) by {
            assert(forall|i: int|
                0 <= i < s.len() - 1 ==> is_digit_byte(#[trigger] s.drop_last()[i]));
        }
        lemma_digits_val_upper(s.drop_last());
        assert(digits_val(s.drop_last()) <= pow10((s.len() - 1) as nat) - 1);
        assert(digits_val(s.drop_last()) * 10 <= (pow10((s.len() - 1) as nat) - 1) * 10)
            by (nonlinear_arith)
            requires
                digits_val(s.drop_last()) <= pow10((s.len() - 1) as nat) - 1,
        ;
    }
}

/// A digit prefix never denotes more than the whole digit string.
pub proof fn lemma_digits_val_prefix_le(s: Seq<u8>, i: int)
    requires
        all_digit_bytes(s),
        0 <= i <= s.len(),
    ensures
        digits_val(s.take(i)) <= digits_val(s),
    decreases s.len() - i,
{
    if i < s.len() {
        lemma_digits_val_prefix_le(s, i + 1);
        assert(s.take(i + 1).drop_last() =~= s.take(i));
        assert(all_digit_bytes(s.take(i)));
        lemma_digits_val_nonneg(s.take(i));
        assert(digits_val(s.take(i + 1)) == digits_val(s.take(i)) * 10 + digit_byte_val(
            s.take(i + 1).last(),
        ));
    } else {
        assert(s.take(i) =~= s);
    }
}

/// Index of the first occurrence of `b` in `s`, or `-1` when absent.
pub open spec fn find_byte(s: Seq<u8>, b: u8) -> int
    decreases s.len(),
{
    if s.len() == 0 {
        -1
    } else if s[0] == b {
        0
    } else {
        let r = find_byte(s.drop_first(), b);
        if r < 0 {
            -1
        } else {
            r + 1
        }
    }
}

pub proof fn lemma_find_byte_absent(s: Seq<u8>, b: u8)
    requires
        forall|i: int| 0 <= i < s.len() ==> #[trigger] s[i] != b,
    ensures
        find_byte(s, b) == -1,
    decreases s.len(),
{
    if s.len() > 0 {
        lemma_find_byte_absent(s.drop_first(), b);
    }
}

pub proof fn lemma_find_byte_at(s: Seq<u8>, b: u8, i: int)
    requires
        0 <= i < s.len(),
        s[i] == b,
        forall|j: int| 0 <= j < i ==> #[trigger] s[j] != b,
    ensures
        find_byte(s, b) == i,
    decreases i,
{
    if i > 0 {
        lemma_find_byte_at(s.drop_first(), b, i - 1);
    }
}

/// ASCII codes used by the number grammar.
pub const BYTE_MINUS: u8 = 45;

pub const BYTE_DOT: u8 = 46;

/// Scaled value denoted by an unsigned decimal literal: digits with an
/// optional dot followed by one to four fraction digits.  `None` when the
/// bytes do not match that grammar or the value exceeds the magnitude bound.
pub open spec fn parse_unsigned_spec(s: Seq<u8>) -> Option<int> {
    let d = find_byte(s, BYTE_DOT);
    if d < 0 {
        if s.len() > 0 && all_digit_bytes(s) && digits_val(s) * FIXED_SCALE <= FIXED_MAX {
            Some(digits_val(s) * FIXED_SCALE)
        } else {
            Option::None
        }
    } else {
        let ip = s.take(d);
        let fp = s.skip(d + 1);
        if ip.len() > 0 && 1 <= fp.len() <= 4 && all_digit_bytes(ip) && all_digit_bytes(fp) {
            let v = digits_val(ip) * FIXED_SCALE + digits_val(fp) * pow10((4 - fp.len()) as nat);
            if v <= FIXED_MAX {
                Some(v)
            } else {
                Option::None
            }
        } else {
            Option::None
        }
    }
}

/// Scaled value denoted by a decimal literal with an optional leading minus.
pub open spec fn parse_fixed_spec(s: Seq<u8>) -> Option<int> {
    if s.len() > 0 && s[0] == BYTE_MINUS {
        match parse_unsigned_spec(s.drop_first()) {
            Some(v) => Some(-v),
            Option::None => Option::None,
        }
    } else {
        parse_unsigned_spec(s)
    }
}

/// Accumulate the value of the digit bytes `s[from..to]`, reporting `None`
/// as soon as the running value exceeds `FIXED_MAX / FIXED_SCALE`.
fn digits_value_range(s: &[u8], from: usize, to: usize) -> (r: Option<i64>)
    requires
        from <= to <= s@.len(),
        all_digit_bytes(s@.subrange(from as int, to as int)),
    ensures
        match r {
            Some(v) => digits_val(s@.subrange(from as int, to as int)) == v && 0 <= v <= FIXED_MAX
                / FIXED_SCALE,
            Option::None => digits_val(s@.subrange(from as int, to as int)) > FIXED_MAX
                / FIXED_SCALE,
        },
{
    let ghost whole = s@.subrange(from as int, to as int);
    let mut acc: i64 = 0;
    let mut i: usize = from;
    while i < to
        invariant
            from <= i <= to <= s@.len(),
            whole == s@.subrange(from as int, to as int),
            all_digit_bytes(whole),
            0 <= acc <= FIXED_MAX / FIXED_SCALE,
            acc == digits_val(whole.take(i - from)),
        decreases to - i,
    {
        let b = s[i];
        assert(whole[i - from] == b);
        let d = (b - 48) as i64;
        proof {
            assert(whole.take(i + 1 - from).drop_last() =~= whole.take(i - from));
            assert(whole.take(i + 1 - from).last() == b);
        }
        let next = acc * 10 + d;
        if next > FIXED_MAX / FIXED_SCALE {
            proof {
                lemma_digits_val_prefix_le(whole, i + 1 - from);
            }
            return Option::None;
        }
        acc = next;
        i = i + 1;
    }
    proof {
        assert(whole.take(to - from) =~= whole);
    }
    Some(acc)
}

/// Find the first dot in `s`, as the exec face of `find_byte`.
fn find_dot(s: &[u8]) -> (r: Option<usize>)
    ensures
        match r {
            Some(i) => find_byte(s@, BYTE_DOT) == i && i < s@.len() && s@[i as int] == BYTE_DOT,
            Option::None => find_byte(s@, BYTE_DOT) == -1,
        },
{
    let mut i: usize = 0;
    while i < s.len()
        invariant
            i <= s@.len(),
            forall|j: int| 0 <= j < i ==> #[trigger] s@[j] != BYTE_DOT,
        decreases s@.len() - i,
    {
        if s[i] == BYTE_DOT {
            proof {
                lemma_find_byte_at(s@, BYTE_DOT, i as int);
            }
            return Some(i);
        }
        i = i + 1;
    }
    proof {
        lemma_find_byte_absent(s@, BYTE_DOT);
    }
    Option::None
}

/// Check that `s[from..to]` holds only ASCII digits.
fn check_digit_range(s: &[u8], from: usize, to: usize) -> (r: bool)
    requires
        from <= to <= s@.len(),
    ensures
        r == all_digit_bytes(s@.subrange(from as int, to as int)),
{
    let ghost whole = s@.subrange(from as int, to as int);
    let mut i: usize = from;
    while i < to
        invariant
            from <= i <= to <= s@.len(),
            whole == s@.subrange(from as int, to as int),
            forall|j: int| 0 <= j < i - from ==> is_digit_byte(#[trigger] whole[j]),
        decreases to - i,
    {
        let b = s[i];
        if b < 48 || b > 57 {
            assert(!is_digit_byte(whole[i - from]));
            return false;
        }
        i = i + 1;
    }
    true
}

/// Parse the unsigned part of a decimal literal from `s[from..]`.
fn parse_unsigned(s: &[u8], from: usize) -> (r: Option<i64>)
    requires
        from <= s@.len(),
    ensures
        match r {
            Some(v) => fixed_ok(v as int) && v >= 0 && parse_unsigned_spec(
                s@.subrange(from as int, s@.len() as int),
            ) == Some(v as int),
            Option::None => parse_unsigned_spec(s@.subrange(from as int, s@.len() as int))
                is None,
        },
{
    let ghost body = s@.subrange(from as int, s@.len() as int);
    let n = s.len();
    let dot = find_dot_in_range(s, from);
    match dot {
        Option::None => {
            if from == n {
                return Option::None;
            }
            if !check_digit_range(s, from, n) {
                return Option::None;
            }
            match digits_value_range(s, from, n) {
                Some(v) => {
                    proof {
                        lemma_digits_val_nonneg(body);
                    }
                    Some(v * FIXED_SCALE)
                },
                Option::None => Option::None,
            }
        },
        Some(d) => {
            let fplen = n - (d + 1);
            let ghost ip = body.take(d - from);
            let ghost fp = body.skip(d - from + 1);
            proof {
                assert(ip =~= s@.subrange(from as int, d as int));
                assert(fp =~= s@.subrange(d + 1, n as int));
            }
            if d == from || fplen < 1 || fplen > 4 {
                return Option::None;
            }
            if !check_digit_range(s, from, d) {
                return Option::None;
            }
            if !check_digit_range(s, d + 1, n) {
                return Option::None;
            }
            let iv = match digits_value_range(s, from, d) {
                Some(v) => v,
                Option::None => {
                    proof {
                        lemma_pow10_pos((4 - fp.len()) as nat);
                        lemma_digits_val_nonneg(fp);
                        assert(digits_val(ip) * FIXED_SCALE > FIXED_MAX) by (nonlinear_arith)
                            requires
                                digits_val(ip) > FIXED_MAX / FIXED_SCALE,
                        ;
                        assert(digits_val(fp) * pow10((4 - fp.len()) as nat) >= 0)
                            by (nonlinear_arith)
                            requires
                                digits_val(fp) >= 0,
                                pow10((4 - fp.len()) as nat) >= 1,
                        ;
                    }
                    return Option::None;
                },
            };
            let fv = match digits_value_range(s, d + 1, n) {
                Some(v) => v,
                Option::None => {
                    // Unreachable: at most four digits denote less than 10^4.
                    proof {
                        lemma_digits_val_upper(fp);
                        reveal_with_fuel(pow10, 5);
                    }
                    return Option::None;
                },
            };
            // fv < 10^4 because it has at most four digit bytes; recheck the bound
            // on the combined scaled value.
            let pw = pow10_scale_fill(fplen);
            proof {
                lemma_digits_val_upper(fp);
                reveal_with_fuel(pow10, 5);
                assert(0 <= fv * pw <= 10000 * 1000) by (nonlinear_arith)
                    requires
                        0 <= fv < 10000,
                        1 <= pw <= 1000,
                ;
            }
            let scaled_frac = fv * pw;
            if scaled_frac > FIXED_MAX {
                proof {
                    lemma_digits_val_nonneg(ip);
                    assert(digits_val(ip) * FIXED_SCALE >= 0) by (nonlinear_arith)
                        requires
                            digits_val(ip) >= 0,
                    ;
                }
                return Option::None;
            }
            let v = iv * FIXED_SCALE;
            if v > FIXED_MAX - scaled_frac {
                return Option::None;
            }
            proof {
                lemma_digits_val_nonneg(fp);
                assert(fv * pow10((4 - fp.len()) as nat) >= 0) by (nonlinear_arith)
                    requires
                        fv >= 0,
                        pow10((4 - fp.len()) as nat) >= 1,
                ;
            }
            Some(v + scaled_frac)
        },
    }
}

/// `10^(4 - fplen)` for a fraction of `fplen` digits.
fn pow10_scale_fill(fplen: usize) -> (r: i64)
    requires
        1 <= fplen <= 4,
    ensures
        r == pow10((4 - fplen) as nat),
        1 <= r <= 1000,
{
    proof {
        reveal_with_fuel(pow10, 4);
    }
    if fplen == 1 {
        1000
    } else if fplen == 2 {
        100
    } else if fplen == 3 {
        10
    } else {
        1
    }
}

/// Find the first dot at or after `from`, relating it to `find_byte` on the tail.
fn find_dot_in_range(s: &[u8], from: usize) -> (r: Option<usize>)
    requires
        from <= s@.len(),
    ensures
        match r {
            Some(i) => from <= i < s@.len() && s@[i as int] == BYTE_DOT && find_byte(
                s@.subrange(from as int, s@.len() as int),
                BYTE_DOT,
            ) == i - from,
            Option::None => find_byte(s@.subrange(from as int, s@.len() as int), BYTE_DOT) == -1,
        },
{
    let ghost body = s@.subrange(from as int, s@.len() as int);
    let mut i: usize = from;
    while i < s.len()
        invariant
            from <= i <= s@.len(),
            body == s@.subrange(from as int, s@.len() as int),
            forall|j: int| 0 <= j < i - from ==> #[trigger] body[j] != BYTE_DOT,
        decreases s@.len() - i,
    {
        if s[i] == BYTE_DOT {
            proof {
                assert(body[i - from] == BYTE_DOT);
                lemma_find_byte_at(body, BYTE_DOT, i - from);
            }
            return Some(i);
        }
        assert(body[i - from] != BYTE_DOT);
        i = i + 1;
    }
    proof {
        lemma_find_byte_absent(body, BYTE_DOT);
    }
    Option::None
}

/// Parse a decimal literal (optional leading minus, digits, optional dot and
/// one to four fraction digits) into a scaled number.
pub fn parse_fixed(s: &str) -> (r: Option<Fixed>)
    ensures
        match r {
            Some(f) => f.wf() && parse_fixed_spec(s.spec_bytes()) == Some(f.scaled as int),
            Option::None => parse_fixed_spec(s.spec_bytes()) is None,
        },
{
    let b = s.as_bytes();
    if b.len() > 0 && b[0] == BYTE_MINUS {
        proof {
            assert(b@.subrange(1, b@.len() as int) =~= b@.drop_first());
        }
        match parse_unsigned(b, 1) {
            Some(v) => Some(Fixed { scaled: -v }),
            Option::None => Option::None,
        }
    } else {
        proof {
            assert(b@.subrange(0, b@.len() as int) =~= b@);
        }
        match parse_unsigned(b, 0) {
            Some(v) => Some(Fixed { scaled: v }),
            Option::None => Option::None,
        }
    }
}

} // verus!
