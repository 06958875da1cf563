//! Tolerant comparison of numbers written in decimal notation.
//!
//! Two numbers agree when they differ by no more than a thousandth. The
//! decision is exact, for numbers of any length: the digits of both are read
//! side by side, and no rounding takes place.

use crate::number::{fraction_part, is_decimal, is_negative, scan_decimal, whole_part};
use crate::convert::null_text;
use crate::number::{lemma_point_from, unsigned_part};
use crate::outside::{decimal_text, padded_digits};
use crate::text::{
    all_digits, chars_of, digit_of, digit_value, digits_value, is_digit, lemma_nat_text_reads_back,
    nat_text, same_text, zeros,
};
use vstd::prelude::*;

verus! {

/// Ten to the power `n`.
pub open spec fn pow10(n: nat) -> nat
    decreases n,
{
    if n == 0 {
        1
    } else {
        10 * pow10((n - 1) as nat)
    }
}

/// The number written by `s`, in units of ten to the power minus `places`.
/// It is exact where `places` is no less than the count of fractional
/// digits of `s`.
pub open spec fn scaled(s: Seq<char>, places: nat) -> int {
    let whole = digits_value(whole_part(s));
    let fraction = digits_value(fraction_part(s));
    let magnitude = whole * pow10(places) + fraction * pow10(
        (places - fraction_part(s).len()) as nat,
    );
    if is_negative(s) {
        -magnitude
    } else {
        magnitude as int
    }
}

/// The count of fractional digits at which two numbers are compared: that
/// of the longer fraction, and three at least.
pub open spec fn common_places(a: Seq<char>, b: Seq<char>) -> nat {
    let longer = if fraction_part(a).len() >= fraction_part(b).len() {
        fraction_part(a).len()
    } else {
        fraction_part(b).len()
    };
    if longer >= 3 {
        longer
    } else {
        3
    }
}

/// Whether the numbers written by `a` and `b` differ by no more than a
/// thousandth.
pub open spec fn within_tolerance(a: Seq<char>, b: Seq<char>) -> bool {
    let places = common_places(a, b);
    let difference = scaled(a, places) - scaled(b, places);
    let bound = pow10((places - 3) as nat);
    -bound <= difference <= bound
}

/// Whether two texts agree. Equal texts always do. Where the kind is
/// numeric and both texts are numbers in decimal notation, they agree
/// within the tolerance. Any other two texts differ.
pub open spec fn agreement(numeric: bool, a: Seq<char>, b: Seq<char>) -> bool {
    a == b || (numeric && is_decimal(a) && is_decimal(b) && within_tolerance(a, b))
}

/// The digits of the number `s` over `whole` whole places and `places`
/// fractional places: zeros are put before the whole part and after the
/// fraction to fill them.
pub open spec fn aligned(s: Seq<char>, whole: nat, places: nat) -> Seq<char> {
    zeros((whole - whole_part(s).len()) as nat) + whole_part(s) + fraction_part(s) + zeros(
        (places - fraction_part(s).len()) as nat,
    )
}

/// The digits of a thousandth over `whole` whole places and `places`
/// fractional places.
pub open spec fn thousandth(whole: nat, places: nat) -> Seq<char> {
    zeros(whole + 2) + seq!['1'] + zeros((places - 3) as nat)
}

/// `x`, held between minus three and three.
pub open spec fn clamp(x: int) -> int {
    if x > 3 {
        3
    } else if x < -3 {
        -3
    } else {
        x
    }
}

pub proof fn lemma_pow10_positive(n: nat)
    ensures
        pow10(n) >= 1,
    decreases n,
{
    if n > 0 {
        lemma_pow10_positive((n - 1) as nat);
    }
}

pub proof fn lemma_pow10_adds(i: nat, j: nat)
    ensures
        pow10(i + j) == pow10(i) * pow10(j),
    decreases i,
{
    if i == 0 {
        assert(pow10(0 + j) == 1 * pow10(j));
    } else {
        lemma_pow10_adds((i - 1) as nat, j);
        let rest = pow10((i - 1) as nat);
        let other = pow10(j);
        assert((i + j - 1) as nat == (i - 1) as nat + j);
        assert(pow10(i + j) == 10 * pow10((i - 1) as nat + j));
        assert(10 * (rest * other) == (10 * rest) * other) by (nonlinear_arith);
    }
}

/// Zeros are worth nothing.
pub proof fn lemma_zeros_value(n: nat)
    ensures
        digits_value(zeros(n)) == 0,
    decreases n,
{
    if n > 0 {
        lemma_zeros_value((n - 1) as nat);
        assert(zeros(n).drop_last() =~= zeros((n - 1) as nat));
    }
}

/// The worth of two runs of digits written one after the other.
pub proof fn lemma_concat_value(x: Seq<char>, y: Seq<char>)
    ensures
        digits_value(x + y) == digits_value(x) * pow10(y.len()) + digits_value(y),
    decreases y.len(),
{
    if y.len() == 0 {
        assert(x + y =~= x);
        assert(digits_value(x) * 1 == digits_value(x)) by (nonlinear_arith);
    } else {
        lemma_concat_value(x, y.drop_last());
        assert((x + y).drop_last() =~= x + y.drop_last());
        assert((x + y).last() == y.last());
        let head = digits_value(x);
        let power = pow10((y.len() - 1) as nat);
        assert((head * power) * 10 == head * (10 * power)) by (nonlinear_arith);
    }
}

/// The digits of a number over enough places are worth the number, in
/// units of the last place.
pub proof fn lemma_aligned_value(s: Seq<char>, whole: nat, places: nat)
    requires
        whole >= whole_part(s).len(),
        places >= fraction_part(s).len(),
    ensures
        aligned(s, whole, places).len() == whole + places,
        digits_value(aligned(s, whole, places)) == digits_value(whole_part(s)) * pow10(places)
            + digits_value(fraction_part(s)) * pow10((places - fraction_part(s).len()) as nat),
{
    let before = zeros((whole - whole_part(s).len()) as nat);
    let after = zeros((places - fraction_part(s).len()) as nat);
    let w = digits_value(whole_part(s));
    let f = digits_value(fraction_part(s));
    let short = pow10(fraction_part(s).len());
    let rest = pow10((places - fraction_part(s).len()) as nat);
    lemma_zeros_value(before.len());
    lemma_zeros_value(after.len());
    lemma_concat_value(before, whole_part(s));
    lemma_concat_value(before + whole_part(s), fraction_part(s));
    lemma_concat_value(before + whole_part(s) + fraction_part(s), after);
    lemma_pow10_adds(fraction_part(s).len(), (places - fraction_part(s).len()) as nat);
    assert(digits_value(before + whole_part(s)) == w) by (nonlinear_arith)
        requires
            digits_value(before + whole_part(s)) == 0 * pow10(whole_part(s).len()) + w,
    ;
    assert((w * short + f) * rest == w * (short * rest) + f * rest) by (nonlinear_arith);
}

/// The digits of a thousandth are worth ten to the power of the places
/// after the third.
pub proof fn lemma_thousandth_value(whole: nat, places: nat)
    requires
        places >= 3,
    ensures
        thousandth(whole, places).len() == whole + places,
        digits_value(thousandth(whole, places)) == pow10((places - 3) as nat),
{
    let head = zeros(whole + 2) + seq!['1'];
    let tail = zeros((places - 3) as nat);
    lemma_zeros_value(whole + 2);
    lemma_zeros_value(tail.len());
    assert(head.drop_last() =~= zeros(whole + 2));
    assert(head.last() == '1');
    assert(digits_value(head) == 1);
    lemma_concat_value(head, tail);
    assert(1 * pow10(tail.len()) == pow10(tail.len())) by (nonlinear_arith);
}

/// The padded digits of a number are digits, at least one and at least
/// `scale` of them, and are worth the number.
pub proof fn lemma_padded_digits(magnitude: nat, scale: nat)
    ensures
        all_digits(padded_digits(magnitude, scale as int)),
        padded_digits(magnitude, scale as int).len() >= scale,
        padded_digits(magnitude, scale as int).len() >= 1,
        digits_value(padded_digits(magnitude, scale as int)) == magnitude,
{
    let digits = nat_text(magnitude);
    let padded = padded_digits(magnitude, scale as int);
    lemma_nat_text_reads_back(magnitude);
    if digits.len() < scale {
        let lead = zeros((scale - digits.len()) as nat);
        lemma_zeros_value(lead.len());
        lemma_concat_value(lead, digits);
        assert(0 * pow10(digits.len()) == 0) by (nonlinear_arith);
        assert forall|j: int| 0 <= j < padded.len() implies is_digit(#[trigger] padded[j]) by {
            if j < lead.len() {
                assert(padded[j] == lead[j]);
            } else {
                assert(padded[j] == digits[j - lead.len()]);
            }
        }
    }
}

/// A sign, a whole part, and a fraction after a point where there is one,
/// make a number in decimal notation with those parts.
pub proof fn lemma_composed_parts(negative: bool, whole: Seq<char>, fraction: Seq<char>)
    requires
        whole.len() > 0,
        all_digits(whole),
        all_digits(fraction),
    ensures
        ({
            let sign = if negative {
                seq!['-']
            } else {
                Seq::<char>::empty()
            };
            let text = if fraction.len() == 0 {
                sign + whole
            } else {
                sign + whole + seq!['.'] + fraction
            };
            &&& is_decimal(text)
            &&& is_negative(text) == negative
            &&& whole_part(text) == whole
            &&& fraction_part(text) == fraction
            &&& is_digit(text.last())
        }),
{
    let sign = if negative {
        seq!['-']
    } else {
        Seq::<char>::empty()
    };
    let body = if fraction.len() == 0 {
        whole
    } else {
        whole + seq!['.'] + fraction
    };
    let text = sign + body;
    assert(text =~= if fraction.len() == 0 {
        sign + whole
    } else {
        sign + whole + seq!['.'] + fraction
    });
    assert(is_digit(whole[0]));
    if negative {
        assert(unsigned_part(text) =~= body);
    } else {
        assert(text =~= body);
        assert(text[0] == whole[0]);
        assert(unsigned_part(text) =~= body);
    }
    assert forall|j: int| 0 <= j < whole.len() implies body[j] != '.' by {
        assert(body[j] == whole[j]);
        assert(is_digit(whole[j]));
    }
    lemma_point_from(body, 0, whole.len() as int);
    assert(whole_part(text) =~= whole);
    assert(fraction_part(text) =~= fraction);
    if fraction.len() == 0 {
        assert(text.last() == whole.last());
    } else {
        assert(text.last() == fraction.last());
    }
}

/// The text of a decimal is a number in decimal notation with as many
/// fractional digits as its scale, and it is worth the mantissa, in units
/// of ten to the power minus the scale. It is never the null text.
pub proof fn lemma_decimal_text_value(mantissa: int, scale: nat, places: nat)
    requires
        places >= scale,
    ensures
        is_decimal(decimal_text(mantissa, scale as int)),
        is_negative(decimal_text(mantissa, scale as int)) == (mantissa < 0),
        fraction_part(decimal_text(mantissa, scale as int)).len() == scale,
        scaled(decimal_text(mantissa, scale as int), places) == mantissa * pow10(
            (places - scale) as nat,
        ),
        decimal_text(mantissa, scale as int) != null_text(),
{
    let text = decimal_text(mantissa, scale as int);
    let magnitude: nat = if mantissa < 0 {
        (-mantissa) as nat
    } else {
        mantissa as nat
    };
    let padded = padded_digits(magnitude, scale as int);
    lemma_padded_digits(magnitude, scale);
    let cut = padded.len() - scale;
    let front = padded.take(cut);
    let fraction = padded.skip(cut);
    assert(padded =~= front + fraction);
    lemma_concat_value(front, fraction);
    let whole = if cut == 0 {
        seq!['0']
    } else {
        front
    };
    if cut == 0 {
        assert(front =~= Seq::<char>::empty());
        assert(whole.drop_last() =~= Seq::<char>::empty());
    }
    assert(digits_value(whole) == digits_value(front));
    assert forall|j: int| 0 <= j < whole.len() implies is_digit(#[trigger] whole[j]) by {
        if cut != 0 {
            assert(whole[j] == padded[j]);
        }
    }
    assert forall|j: int| 0 <= j < fraction.len() implies is_digit(#[trigger] fraction[j]) by {
        assert(fraction[j] == padded[cut + j]);
    }
    lemma_composed_parts(mantissa < 0, whole, fraction);
    assert(fraction.len() == scale);
    assert(!is_digit(null_text().last()));
    lemma_decimal_worth(
        mantissa,
        magnitude,
        digits_value(whole),
        digits_value(fraction),
        pow10(scale),
        pow10((places - scale) as nat),
    );
    lemma_pow10_adds(scale, (places - scale) as nat);
}

/// The arithmetic of [`lemma_decimal_text_value`].
proof fn lemma_decimal_worth(
    mantissa: int,
    magnitude: nat,
    whole: nat,
    fraction: nat,
    short: nat,
    rest: nat,
)
    by (nonlinear_arith)
    requires
        magnitude == whole * short + fraction,
        mantissa == magnitude || mantissa == -magnitude,
    ensures
        whole * (short * rest) + fraction * rest == magnitude * rest,
        mantissa < 0 ==> -(whole * (short * rest) + fraction * rest) == mantissa * rest,
        mantissa >= 0 ==> whole * (short * rest) + fraction * rest == mantissa * rest,
{
}

/// Two decimals agree exactly when their numbers differ by no more than a
/// thousandth: the mantissas, brought to the same scale, differ by no more
/// than a thousandth in units of that scale.
pub proof fn lemma_decimals_within_tolerance(
    mantissa_a: int,
    scale_a: nat,
    mantissa_b: int,
    scale_b: nat,
)
    ensures
        ({
            let longer = if scale_a >= scale_b {
                scale_a
            } else {
                scale_b
            };
            let places = if longer >= 3 {
                longer
            } else {
                3
            };
            let difference = mantissa_a * pow10((places - scale_a) as nat) - mantissa_b * pow10(
                (places - scale_b) as nat,
            );
            let bound = pow10((places - 3) as nat);
            let a = decimal_text(mantissa_a, scale_a as int);
            let b = decimal_text(mantissa_b, scale_b as int);
            &&& is_decimal(a)
            &&& is_decimal(b)
            &&& within_tolerance(a, b) == (-bound <= difference <= bound)
            &&& agreement(true, a, b) == (-bound <= difference <= bound)
        }),
{
    let longer = if scale_a >= scale_b {
        scale_a
    } else {
        scale_b
    };
    let places = if longer >= 3 {
        longer
    } else {
        3
    };
    let a = decimal_text(mantissa_a, scale_a as int);
    let b = decimal_text(mantissa_b, scale_b as int);
    lemma_decimal_text_value(mantissa_a, scale_a, places);
    lemma_decimal_text_value(mantissa_b, scale_b, places);
    assert(common_places(a, b) == places);
    lemma_pow10_positive((places - 3) as nat);
}

/// The boundary of the tolerance: two numbers that differ by exactly a
/// thousandth are within it, two that differ by any more are not; and the
/// order of the two does not matter.
pub proof fn lemma_tolerance_boundary(a: Seq<char>, b: Seq<char>)
    ensures
        ({
            let places = common_places(a, b);
            let difference = scaled(a, places) - scaled(b, places);
            let bound = pow10((places - 3) as nat);
            &&& difference == bound || difference == -bound ==> within_tolerance(a, b)
            &&& difference > bound || difference < -bound ==> !within_tolerance(a, b)
        }),
        within_tolerance(a, b) == within_tolerance(b, a),
{
    lemma_pow10_positive((common_places(a, b) - 3) as nat);
    assert(common_places(a, b) == common_places(b, a));
}

/// Where the parts of a number stand in its characters.
struct Layout {
    negative: bool,
    start: usize,
    point: usize,
    after: usize,
}

impl Layout {
    /// The layout is that of the number that `chars` writes.
    spec fn lays_out(&self, chars: Seq<char>) -> bool {
        &&& is_decimal(chars)
        &&& self.negative == is_negative(chars)
        &&& self.start <= self.point <= self.after <= chars.len()
        &&& whole_part(chars) == chars.subrange(self.start as int, self.point as int)
        &&& fraction_part(chars) == chars.subrange(self.after as int, chars.len() as int)
    }
}

/// The layout of the number that `chars` writes, if they write one.
fn lay_out(chars: &Vec<char>) -> (res: Option<Layout>)
    ensures
        match res {
            Some(layout) => layout.lays_out(chars@),
            None => !is_decimal(chars@),
        },
{
    match scan_decimal(chars) {
        Some((start, point, after)) => {
            let negative = chars.len() > 0 && chars[0] == '-';
            Some(Layout { negative, start, point, after })
        },
        None => None,
    }
}

/// The digit at index `i` of the number over `whole` whole places and
/// `places` fractional places.
fn aligned_digit(
    chars: &Vec<char>,
    layout: &Layout,
    whole: u128,
    i: u128,
    Ghost(places): Ghost<nat>,
) -> (res: i8)
    requires
        layout.lays_out(chars@),
        whole >= whole_part(chars@).len(),
        places >= fraction_part(chars@).len(),
        i < whole + places,
    ensures
        0 <= res <= 9,
        digit_of(aligned(chars@, whole as nat, places)[i as int]) == Some(res as int),
{
    let ghost text = aligned(chars@, whole as nat, places);
    let ghost lead = zeros((whole - whole_part(chars@).len()) as nat);
    let ghost trail = zeros((places - fraction_part(chars@).len()) as nat);
    assert(text == lead + whole_part(chars@) + fraction_part(chars@) + trail);
    let whole_len: u128 = (layout.point - layout.start) as u128;
    let fraction_len: u128 = (chars.len() - layout.after) as u128;
    let index: usize = if i < whole {
        if i < whole - whole_len {
            assert(text[i as int] == lead[i as int]);
            return 0;
        }
        let offset: u128 = i - (whole - whole_len);
        assert(text[i as int] == whole_part(chars@)[offset as int]);
        layout.start + offset as usize
    } else {
        let offset: u128 = i - whole;
        if offset >= fraction_len {
            assert(text[i as int] == trail[offset - fraction_len]);
            return 0;
        }
        assert(text[i as int] == fraction_part(chars@)[offset as int]);
        layout.after + offset as usize
    };
    assert(text[i as int] == chars@[index as int]);
    assert(is_digit(text[i as int]));
    match digit_value(chars[index]) {
        Some(d) => d as i8,
        None => 0,
    }
}

/// Whether two numbers, given by their characters and their layouts, differ
/// by no more than a thousandth.
///
/// The digits of both are read from the most significant on, over the same
/// places. Two sums are kept, of the thousandth less the difference and of
/// the thousandth plus the difference, each held between minus three and
/// three: beyond that a sum can no longer change its sign.
fn numbers_close(a: &Vec<char>, left: &Layout, b: &Vec<char>, right: &Layout) -> (res: bool)
    requires
        left.lays_out(a@),
        right.lays_out(b@),
    ensures
        res == within_tolerance(a@, b@),
{
    let whole_a: u128 = (left.point - left.start) as u128;
    let whole_b: u128 = (right.point - right.start) as u128;
    let fraction_a: u128 = (a.len() - left.after) as u128;
    let fraction_b: u128 = (b.len() - right.after) as u128;
    let whole: u128 = if whole_a >= whole_b {
        whole_a
    } else {
        whole_b
    };
    let longer: u128 = if fraction_a >= fraction_b {
        fraction_a
    } else {
        fraction_b
    };
    let places: u128 = if longer >= 3 {
        longer
    } else {
        3
    };
    let count: u128 = whole + places;
    let ghost digits_a = aligned(a@, whole as nat, places as nat);
    let ghost digits_b = aligned(b@, whole as nat, places as nat);
    let ghost unit = thousandth(whole as nat, places as nat);
    let ghost sign_a: int = if left.negative {
        -1
    } else {
        1
    };
    let ghost sign_b: int = if right.negative {
        -1
    } else {
        1
    };
    proof {
        lemma_aligned_value(a@, whole as nat, places as nat);
        lemma_aligned_value(b@, whole as nat, places as nat);
        lemma_thousandth_value(whole as nat, places as nat);
        assert(places as nat == common_places(a@, b@));
        assert(digits_a.take(0) =~= Seq::<char>::empty());
        assert(digits_b.take(0) =~= Seq::<char>::empty());
        assert(unit.take(0) =~= Seq::<char>::empty());
    }
    let mut under: i8 = 0;
    let mut over: i8 = 0;
    let mut i: u128 = 0;
    while i < count
        invariant
            i <= count,
            count == whole + places,
            places >= 3,
            left.lays_out(a@),
            right.lays_out(b@),
            whole >= whole_part(a@).len(),
            whole >= whole_part(b@).len(),
            places >= fraction_part(a@).len(),
            places >= fraction_part(b@).len(),
            digits_a == aligned(a@, whole as nat, places as nat),
            digits_b == aligned(b@, whole as nat, places as nat),
            unit == thousandth(whole as nat, places as nat),
            digits_a.len() == count,
            digits_b.len() == count,
            unit.len() == count,
            sign_a == if left.negative {
                -1int
            } else {
                1int
            },
            sign_b == if right.negative {
                -1int
            } else {
                1int
            },
            under == clamp(
                digits_value(unit.take(i as int)) - (sign_a * digits_value(digits_a.take(i as int))
                    - sign_b * digits_value(digits_b.take(i as int))),
            ),
            over == clamp(
                digits_value(unit.take(i as int)) + (sign_a * digits_value(digits_a.take(i as int))
                    - sign_b * digits_value(digits_b.take(i as int))),
            ),
        decreases count - i,
    {
        let digit_a = aligned_digit(a, left, whole, i, Ghost(places as nat));
        let digit_b = aligned_digit(b, right, whole, i, Ghost(places as nat));
        let one: i8 = if i == whole + 2 {
            1
        } else {
            0
        };
        let signed_a: i8 = if left.negative {
            -digit_a
        } else {
            digit_a
        };
        let signed_b: i8 = if right.negative {
            -digit_b
        } else {
            digit_b
        };
        proof {
            let k = i as int;
            assert(digits_a.take(k + 1).drop_last() =~= digits_a.take(k));
            assert(digits_b.take(k + 1).drop_last() =~= digits_b.take(k));
            assert(unit.take(k + 1).drop_last() =~= unit.take(k));
            assert(digits_a.take(k + 1).last() == digits_a[k]);
            assert(digits_b.take(k + 1).last() == digits_b[k]);
            assert(unit.take(k + 1).last() == unit[k]);
            let lead = zeros((whole + 2) as nat);
            let trail = zeros((places - 3) as nat);
            assert(unit == lead + seq!['1'] + trail);
            if k < whole + 2 {
                assert(unit[k] == lead[k]);
            } else if k == whole + 2 {
                assert(unit[k] == '1');
            } else {
                assert(unit[k] == trail[k - whole - 3]);
            }
            assert(digit_of(unit[k]) == Some(one as int));
            assert(digits_value(digits_a.take(k + 1)) == digits_value(digits_a.take(k)) * 10
                + digit_a);
            assert(digits_value(digits_b.take(k + 1)) == digits_value(digits_b.take(k)) * 10
                + digit_b);
            assert(digits_value(unit.take(k + 1)) == digits_value(unit.take(k)) * 10 + one);
            assert(sign_a * digit_a == signed_a) by (nonlinear_arith)
                requires
                    sign_a == 1 || sign_a == -1,
                    signed_a == if sign_a == -1 {
                        -digit_a
                    } else {
                        digit_a as int
                    },
            ;
            assert(sign_b * digit_b == signed_b) by (nonlinear_arith)
                requires
                    sign_b == 1 || sign_b == -1,
                    signed_b == if sign_b == -1 {
                        -digit_b
                    } else {
                        digit_b as int
                    },
            ;
            let value_a = digits_value(digits_a.take(k));
            let value_b = digits_value(digits_b.take(k));
            assert(sign_a * (value_a * 10 + digit_a) == (sign_a * value_a) * 10 + sign_a * digit_a)
                by (nonlinear_arith);
            assert(sign_b * (value_b * 10 + digit_b) == (sign_b * value_b) * 10 + sign_b * digit_b)
                by (nonlinear_arith);
        }
        let next_under: i8 = under * 10 + one - (signed_a - signed_b);
        let next_over: i8 = over * 10 + one + (signed_a - signed_b);
        under = if next_under > 3 {
            3
        } else if next_under < -3 {
            -3
        } else {
            next_under
        };
        over = if next_over > 3 {
            3
        } else if next_over < -3 {
            -3
        } else {
            next_over
        };
        i += 1;
    }
    proof {
        assert(digits_a.take(count as int) =~= digits_a);
        assert(digits_b.take(count as int) =~= digits_b);
        assert(unit.take(count as int) =~= unit);
        let value_a = digits_value(digits_a);
        let value_b = digits_value(digits_b);
        assert(scaled(a@, places as nat) == sign_a * value_a) by (nonlinear_arith)
            requires
                sign_a == 1 || sign_a == -1,
                scaled(a@, places as nat) == if sign_a == -1 {
                    -value_a
                } else {
                    value_a as int
                },
        ;
        assert(scaled(b@, places as nat) == sign_b * value_b) by (nonlinear_arith)
            requires
                sign_b == 1 || sign_b == -1,
                scaled(b@, places as nat) == if sign_b == -1 {
                    -value_b
                } else {
                    value_b as int
                },
        ;
    }
    under >= 0 && over >= 0
}

/// Compares two texts: as numbers within the tolerance where `numeric` is
/// set and both are numbers, by their characters otherwise.
pub fn texts_agree(numeric: bool, a: &str, b: &str) -> (res: bool)
    ensures
        res == agreement(numeric, a@, b@),
{
    if same_text(a, b) {
        return true;
    }
    if !numeric {
        return false;
    }
    let left_chars = chars_of(a);
    let right_chars = chars_of(b);
    let left = match lay_out(&left_chars) {
        Some(left) => left,
        None => {
            return false;
        },
    };
    let right = match lay_out(&right_chars) {
        Some(right) => right,
        None => {
            return false;
        },
    };
    numbers_close(&left_chars, &left, &right_chars, &right)
}

} // verus!
