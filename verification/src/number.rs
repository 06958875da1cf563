//! Plain decimal notation: a sign, digits, and at most one point.
//!
//! The notation serves two purposes. Floating-point values are held by their
//! canonical text ([`FloatText`]), and any number in this notation can be
//! read exactly as a mantissa and a count of fractional digits.

use crate::outside::decimal_in_range;
use crate::text::{all_digits, chars_of, digit_value, is_digit};
use vstd::prelude::*;
use vstd::string::*;

verus! {

/// The index of the first `.` in `s` at or after `i`; `s.len()` if there is
/// none.
pub open spec fn point_from(s: Seq<char>, i: int) -> int
    decreases s.len() - i,
{
    if i >= s.len() || s[i] == '.' {
        i
    } else {
        point_from(s, i + 1)
    }
}

/// Whether the text starts with a minus sign.
pub open spec fn is_negative(s: Seq<char>) -> bool {
    s.len() > 0 && s[0] == '-'
}

/// The text without its leading `+` or `-`, if it has one.
pub open spec fn unsigned_part(s: Seq<char>) -> Seq<char> {
    if s.len() > 0 && (s[0] == '-' || s[0] == '+') {
        s.skip(1)
    } else {
        s
    }
}

/// What stands before the first point.
pub open spec fn whole_part(s: Seq<char>) -> Seq<char> {
    let body = unsigned_part(s);
    body.take(point_from(body, 0))
}

/// What stands after the first point; empty if there is no point.
pub open spec fn fraction_part(s: Seq<char>) -> Seq<char> {
    let body = unsigned_part(s);
    let point = point_from(body, 0);
    if point < body.len() {
        body.skip(point + 1)
    } else {
        Seq::<char>::empty()
    }
}

/// Plain decimal notation: an optional sign, then digits with at most one
/// point among them, and at least one digit in all.
pub open spec fn is_decimal(s: Seq<char>) -> bool {
    &&& all_digits(whole_part(s))
    &&& all_digits(fraction_part(s))
    &&& whole_part(s).len() + fraction_part(s).len() > 0
}

/// Where the digits of `s` begin to count: the first index at or after `i`
/// that holds no `0`, and the last index of `s` at the latest.
pub open spec fn first_counting(s: Seq<char>, i: int) -> int
    decreases s.len() - i,
{
    if i + 1 >= s.len() || s[i] != '0' {
        i
    } else {
        first_counting(s, i + 1)
    }
}

/// Where the first `n` digits of `s` cease to count: `n` less the zeros that
/// end them, and one at the least.
pub open spec fn last_counting(s: Seq<char>, n: int) -> int
    decreases n,
{
    if n <= 1 || s[n - 1] != '0' {
        n
    } else {
        last_counting(s, n - 1)
    }
}

/// The whole part as it is written in canonical text: without the zeros
/// that lead it, and `0` where nothing is left or nothing was given.
pub open spec fn trim_whole(whole: Seq<char>) -> Seq<char> {
    if whole.len() == 0 {
        seq!['0']
    } else {
        whole.skip(first_counting(whole, 0))
    }
}

/// The fraction as it is written in canonical text: without the zeros that
/// end it, and `0` where nothing is left or nothing was given.
pub open spec fn trim_fraction(fraction: Seq<char>) -> Seq<char> {
    if fraction.len() == 0 {
        seq!['0']
    } else {
        fraction.take(last_counting(fraction, fraction.len() as int))
    }
}

/// The canonical text of a number in decimal notation: `-` if negative,
/// the whole part, a point, the fraction. Each side of the point has at
/// least one digit, and no zero that does not count: none before the whole
/// part, none after the fraction.
pub open spec fn canonical_float(s: Seq<char>) -> Seq<char> {
    let sign = if is_negative(s) {
        seq!['-']
    } else {
        Seq::<char>::empty()
    };
    sign + trim_whole(whole_part(s)) + seq!['.'] + trim_fraction(fraction_part(s))
}

/// Text that is its own canonical form.
pub open spec fn is_canonical_float(s: Seq<char>) -> bool {
    is_decimal(s) && canonical_float(s) == s
}

/// `first_counting` finds `k` when only zeros stand in `i..k` and `k` holds
/// another digit or is the last index.
pub proof fn lemma_first_counting(s: Seq<char>, i: int, k: int)
    requires
        0 <= i <= k < s.len(),
        forall|j: int| i <= j < k ==> s[j] == '0',
        k == s.len() - 1 || s[k] != '0',
    ensures
        first_counting(s, i) == k,
    decreases k - i,
{
    if i < k {
        lemma_first_counting(s, i + 1, k);
    }
}

/// `last_counting` finds `k` when only zeros stand in `k..n` and `k` is one
/// or follows another digit.
pub proof fn lemma_last_counting(s: Seq<char>, n: int, k: int)
    requires
        1 <= k <= n <= s.len(),
        forall|j: int| k <= j < n ==> s[j] == '0',
        k == 1 || s[k - 1] != '0',
    ensures
        last_counting(s, n) == k,
    decreases n - k,
{
    if k < n {
        lemma_last_counting(s, n - 1, k);
    }
}

/// Where `first_counting` lands: on an index of `s`, which holds a digit
/// other than `0` unless it is the last.
pub proof fn lemma_first_counting_bounds(s: Seq<char>, i: int)
    requires
        0 <= i < s.len(),
    ensures
        i <= first_counting(s, i) < s.len(),
        first_counting(s, i) == s.len() - 1 || s[first_counting(s, i)] != '0',
    decreases s.len() - i,
{
    if i + 1 < s.len() && s[i] == '0' {
        lemma_first_counting_bounds(s, i + 1);
    }
}

/// Where `last_counting` lands: between one and `n`, after a digit other
/// than `0` unless at one.
pub proof fn lemma_last_counting_bounds(s: Seq<char>, n: int)
    requires
        1 <= n <= s.len(),
    ensures
        1 <= last_counting(s, n) <= n,
        last_counting(s, n) == 1 || s[last_counting(s, n) - 1] != '0',
    decreases n,
{
    if n > 1 && s[n - 1] == '0' {
        lemma_last_counting_bounds(s, n - 1);
    }
}

/// A trimmed whole part is a non-empty run of digits that trimming leaves
/// as it is.
pub proof fn lemma_trim_whole(whole: Seq<char>)
    requires
        all_digits(whole),
    ensures
        trim_whole(whole).len() > 0,
        all_digits(trim_whole(whole)),
        trim_whole(trim_whole(whole)) == trim_whole(whole),
{
    let trimmed = trim_whole(whole);
    if whole.len() == 0 {
        assert(is_digit(trimmed[0]));
        assert(trimmed.skip(0) =~= trimmed);
    } else {
        lemma_first_counting_bounds(whole, 0);
        let k = first_counting(whole, 0);
        assert forall|j: int| 0 <= j < trimmed.len() implies is_digit(#[trigger] trimmed[j]) by {
            assert(trimmed[j] == whole[k + j]);
        }
        assert(trimmed[0] == whole[k]);
        lemma_first_counting(trimmed, 0, 0);
        assert(trimmed.skip(0) =~= trimmed);
    }
}

/// A trimmed fraction is a non-empty run of digits that trimming leaves as
/// it is.
pub proof fn lemma_trim_fraction(fraction: Seq<char>)
    requires
        all_digits(fraction),
    ensures
        trim_fraction(fraction).len() > 0,
        all_digits(trim_fraction(fraction)),
        trim_fraction(trim_fraction(fraction)) == trim_fraction(fraction),
{
    let trimmed = trim_fraction(fraction);
    if fraction.len() == 0 {
        assert(is_digit(trimmed[0]));
        assert(trimmed.take(1) =~= trimmed);
    } else {
        lemma_last_counting_bounds(fraction, fraction.len() as int);
        let k = last_counting(fraction, fraction.len() as int);
        assert forall|j: int| 0 <= j < trimmed.len() implies is_digit(#[trigger] trimmed[j]) by {
            assert(trimmed[j] == fraction[j]);
        }
        assert(trimmed[k - 1] == fraction[k - 1]);
        lemma_last_counting(trimmed, k, k);
        assert(trimmed.take(k) =~= trimmed);
    }
}

/// `point_from` finds `k` when no point stands in `i..k` and `k` is a point
/// or the end.
pub proof fn lemma_point_from(s: Seq<char>, i: int, k: int)
    requires
        0 <= i <= k <= s.len(),
        forall|j: int| i <= j < k ==> s[j] != '.',
        k == s.len() || s[k] == '.',
    ensures
        point_from(s, i) == k,
    decreases k - i,
{
    if i < k {
        lemma_point_from(s, i + 1, k);
    }
}

/// The canonical form of a number in decimal notation is canonical: it
/// is made of the trimmed whole part and the trimmed fraction, and is its own
/// canonical form.
pub proof fn lemma_canonical_float_is_canonical(s: Seq<char>)
    requires
        is_decimal(s),
    ensures
        is_canonical_float(canonical_float(s)),
        whole_part(canonical_float(s)) == trim_whole(whole_part(s)),
        fraction_part(canonical_float(s)) == trim_fraction(fraction_part(s)),
        is_negative(canonical_float(s)) == is_negative(s),
{
    let c = canonical_float(s);
    let whole = trim_whole(whole_part(s));
    let fraction = trim_fraction(fraction_part(s));
    lemma_trim_whole(whole_part(s));
    lemma_trim_fraction(fraction_part(s));
    let body = whole + seq!['.'] + fraction;
    assert(is_digit(whole[0]));
    if is_negative(s) {
        assert(c =~= seq!['-'] + body);
        assert(unsigned_part(c) =~= body);
    } else {
        assert(c =~= body);
        assert(c[0] == whole[0]);
        assert(unsigned_part(c) =~= body);
    }
    assert forall|j: int| 0 <= j < whole.len() implies body[j] != '.' by {
        assert(body[j] == whole[j]);
        assert(is_digit(whole[j]));
    }
    assert(body[whole.len() as int] == '.');
    lemma_point_from(body, 0, whole.len() as int);
    assert(whole_part(c) =~= whole);
    assert(fraction_part(c) =~= fraction);
    assert(is_negative(c) == is_negative(s));
    assert(canonical_float(c) =~= c);
}

/// Canonical text has no `+`, at least one digit before its point, and at
/// least one digit after it: a whole number is written with a fractional
/// part all the same. No zero leads the whole part unless it is the only
/// digit, and none ends the fraction unless it is the only digit.
pub proof fn lemma_canonical_float_shape(s: Seq<char>)
    requires
        is_canonical_float(s),
    ensures
        s.len() >= 3,
        s[0] != '+',
        whole_part(s).len() > 0,
        fraction_part(s).len() > 0,
        all_digits(whole_part(s)),
        all_digits(fraction_part(s)),
        unsigned_part(s) == whole_part(s) + seq!['.'] + fraction_part(s),
        whole_part(s).len() == 1 || whole_part(s)[0] != '0',
        fraction_part(s).len() == 1 || fraction_part(s).last() != '0',
{
    lemma_canonical_float_is_canonical(s);
    lemma_trim_whole(whole_part(s));
    lemma_trim_fraction(fraction_part(s));
    let whole = whole_part(s);
    let fraction = fraction_part(s);
    assert(whole == trim_whole(whole));
    assert(fraction == trim_fraction(fraction));
    let sign = if is_negative(s) {
        seq!['-']
    } else {
        Seq::<char>::empty()
    };
    let body = whole + seq!['.'] + fraction;
    assert(s =~= sign + body);
    assert(is_digit(whole[0]));
    if is_negative(s) {
        assert(unsigned_part(s) =~= body);
    } else {
        assert(s[0] == whole[0]);
        assert(unsigned_part(s) =~= body);
    }
    lemma_first_counting_bounds(whole, 0);
    assert(whole.skip(first_counting(whole, 0)).len() == whole.len());
    lemma_last_counting_bounds(fraction, fraction.len() as int);
    assert(fraction.take(last_counting(fraction, fraction.len() as int)).len() == fraction.len());
}

/// The text `0` reads as the number whose canonical text is `0.0`.
pub proof fn lemma_canonical_float_of_digit()
    ensures
        is_decimal(seq!['0']),
        canonical_float(seq!['0']) == seq!['0', '.', '0'],
        is_canonical_float(seq!['0', '.', '0']),
{
    let s = seq!['0'];
    assert(unsigned_part(s) == s);
    lemma_point_from(s, 0, 1);
    assert(whole_part(s) =~= s);
    assert(fraction_part(s) =~= Seq::<char>::empty());
    assert(is_digit(s[0]));
    assert(trim_whole(s) =~= s);
    assert(canonical_float(s) =~= seq!['0', '.', '0']);
    lemma_canonical_float_is_canonical(s);
}

/// A non-empty run of digits is a number in decimal notation, with no
/// fraction.
pub proof fn lemma_digits_are_decimal(s: Seq<char>)
    requires
        s.len() > 0,
        all_digits(s),
    ensures
        is_decimal(s),
        whole_part(s) == s,
        fraction_part(s).len() == 0,
        !is_negative(s),
{
    assert(is_digit(s[0]));
    assert(unsigned_part(s) == s);
    assert forall|j: int| 0 <= j < s.len() implies s[j] != '.' by {
        assert(is_digit(s[j]));
    }
    lemma_point_from(s, 0, s.len() as int);
    assert(whole_part(s) =~= s);
}

/// Whether every character of `chars[from..to]` is a digit.
pub(crate) fn digits_between(chars: &Vec<char>, from: usize, to: usize) -> (res: bool)
    requires
        from <= to <= chars.len(),
    ensures
        res == all_digits(chars@.subrange(from as int, to as int)),
{
    let ghost run = chars@.subrange(from as int, to as int);
    let mut i: usize = from;
    while i < to
        invariant
            from <= i <= to <= chars.len(),
            run == chars@.subrange(from as int, to as int),
            forall|j: int| 0 <= j < i - from ==> is_digit(#[trigger] run[j]),
        decreases to - i,
    {
        if digit_value(chars[i]).is_none() {
            assert(!is_digit(run[i - from]));
            return false;
        }
        i += 1;
    }
    true
}

/// The index of the first `.` in `chars[from..]`, or `chars.len()`.
pub(crate) fn find_point(chars: &Vec<char>, from: usize) -> (res: usize)
    requires
        from <= chars.len(),
    ensures
        from <= res <= chars.len(),
        res - from == point_from(chars@.skip(from as int), 0),
{
    let ghost body = chars@.skip(from as int);
    let mut i: usize = from;
    while i < chars.len() && chars[i] != '.'
        invariant
            from <= i <= chars.len(),
            body == chars@.skip(from as int),
            forall|j: int| 0 <= j < i - from ==> body[j] != '.',
        decreases chars.len() - i,
    {
        i += 1;
    }
    proof {
        lemma_point_from(body, 0, i - from);
    }
    i
}

/// Where the parts of a number in decimal notation stand in `chars`: the
/// index after the sign, the index of the point or the end, and the index
/// after the point or the end. `None` if `chars` is no such number.
pub(crate) fn scan_decimal(chars: &Vec<char>) -> (res: Option<(usize, usize, usize)>)
    ensures
        match res {
            Some((start, point, after)) => {
                &&& is_decimal(chars@)
                &&& start <= point <= after <= chars.len()
                &&& start == if chars@.len() > 0 && (chars@[0] == '-' || chars@[0] == '+') {
                    1int
                } else {
                    0int
                }
                &&& whole_part(chars@) == chars@.subrange(start as int, point as int)
                &&& fraction_part(chars@) == chars@.subrange(after as int, chars.len() as int)
            },
            None => !is_decimal(chars@),
        },
{
    let n = chars.len();
    let start: usize = if n > 0 && (chars[0] == '-' || chars[0] == '+') {
        1
    } else {
        0
    };
    assert(unsigned_part(chars@) =~= chars@.skip(start as int));
    let point = find_point(chars, start);
    let after: usize = if point < n {
        point + 1
    } else {
        n
    };
    assert(whole_part(chars@) =~= chars@.subrange(start as int, point as int));
    assert(fraction_part(chars@) =~= chars@.subrange(after as int, n as int));
    if !digits_between(chars, start, point) || !digits_between(chars, after, n) {
        return None;
    }
    if point == start && after == n {
        return None;
    }
    Some((start, point, after))
}

/// A floating-point value, held by its canonical decimal text.
///
/// The text always has a digit on each side of its point, so a whole number
/// is never mistaken for an integer downstream.
#[derive(Debug, PartialEq, Eq)]
pub struct FloatText {
    text: String,
}

impl View for FloatText {
    type V = Seq<char>;

    closed spec fn view(&self) -> Seq<char> {
        self.text@
    }
}

impl Clone for FloatText {
    fn clone(&self) -> (res: Self)
        ensures
            res == *self,
    {
        self.duplicate()
    }
}

impl FloatText {
    #[verifier::type_invariant]
    spec fn canonical(&self) -> bool {
        is_canonical_float(self.text@)
    }

    /// Reads a number in decimal notation and holds its canonical text.
    /// Anything else reads as `None`.
    pub fn parse(s: &str) -> (res: Option<FloatText>)
        ensures
            match res {
                Some(float) => is_decimal(s@) && float@ == canonical_float(s@),
                None => !is_decimal(s@),
            },
    {
        let chars = chars_of(s);
        let n = chars.len();
        let (start, point, after) = match scan_decimal(&chars) {
            Some(parts) => parts,
            None => {
                return None;
            },
        };
        let negative = n > 0 && chars[0] == '-';
        proof {
            reveal_strlit("-");
            reveal_strlit("");
            reveal_strlit("0");
            reveal_strlit(".");
        }
        assert(s@.len() == n);
        let ghost whole = whole_part(s@);
        let ghost fraction = fraction_part(s@);
        let mut text = if negative {
            "-".to_owned()
        } else {
            "".to_owned()
        };
        if point == start {
            text.append("0");
        } else {
            let mut first: usize = start;
            while first + 1 < point && chars[first] == '0'
                invariant
                    start <= first < point <= chars.len(),
                    whole == chars@.subrange(start as int, point as int),
                    forall|j: int| 0 <= j < first - start ==> whole[j] == '0',
                decreases point - first,
            {
                first += 1;
            }
            proof {
                lemma_first_counting(whole, 0, first - start);
            }
            text.append(s.substring_char(first, point));
            assert(s@.subrange(first as int, point as int) =~= trim_whole(whole));
        }
        text.append(".");
        if after == n {
            text.append("0");
        } else {
            let mut last: usize = n;
            while last > after + 1 && chars[last - 1] == '0'
                invariant
                    after < last <= n,
                    n == chars.len(),
                    fraction == chars@.subrange(after as int, n as int),
                    forall|j: int| last - after <= j < n - after ==> fraction[j] == '0',
                decreases last,
            {
                last -= 1;
            }
            proof {
                lemma_last_counting(fraction, n - after, last - after);
            }
            text.append(s.substring_char(after, last));
            assert(s@.subrange(after as int, last as int) =~= trim_fraction(fraction));
        }
        assert(text@ =~= canonical_float(s@));
        proof {
            lemma_canonical_float_is_canonical(s@);
        }
        Some(FloatText { text })
    }

    /// A copy of the text.
    pub fn duplicate(&self) -> (res: FloatText)
        ensures
            res == *self,
    {
        proof {
            use_type_invariant(self);
        }
        FloatText { text: self.text.clone() }
    }

    /// The number zero.
    pub fn zero() -> (res: FloatText)
        ensures
            res@ == seq!['0', '.', '0'],
            is_canonical_float(res@),
    {
        proof {
            reveal_strlit("0.0");
            lemma_canonical_float_of_digit();
        }
        let text = "0.0".to_owned();
        assert(text@ =~= seq!['0', '.', '0']);
        FloatText { text }
    }

    /// The canonical text.
    pub fn as_str(&self) -> (res: &str)
        ensures
            res@ == self@,
            is_canonical_float(self@),
    {
        proof {
            use_type_invariant(self);
        }
        self.text.as_str()
    }
}

/// A fixed-point decimal number: `mantissa / 10^scale`, within what
/// `rust_decimal` can hold.
#[derive(Debug, Clone, Copy, PartialEq, Eq)]
pub struct FixedPoint {
    mantissa: i128,
    scale: u32,
}

impl FixedPoint {
    #[verifier::type_invariant]
    spec fn in_range(&self) -> bool {
        decimal_in_range(self.mantissa as int, self.scale as int)
    }

    pub closed spec fn mantissa_value(&self) -> int {
        self.mantissa as int
    }

    pub closed spec fn scale_value(&self) -> int {
        self.scale as int
    }

    /// The number `mantissa / 10^scale`, if it is in range.
    pub fn new(mantissa: i128, scale: u32) -> (res: Option<FixedPoint>)
        ensures
            match res {
                Some(number) => {
                    &&& decimal_in_range(mantissa as int, scale as int)
                    &&& number.mantissa_value() == mantissa
                    &&& number.scale_value() == scale
                },
                None => !decimal_in_range(mantissa as int, scale as int),
            },
    {
        if scale <= 28 && -0xFFFF_FFFF_FFFF_FFFF_FFFF_FFFFi128 <= mantissa && mantissa
            <= 0xFFFF_FFFF_FFFF_FFFF_FFFF_FFFFi128 {
            Some(FixedPoint { mantissa, scale })
        } else {
            None
        }
    }

    /// Zero, with no fractional digit.
    pub fn zero() -> (res: FixedPoint)
        ensures
            res.mantissa_value() == 0,
            res.scale_value() == 0,
    {
        FixedPoint { mantissa: 0, scale: 0 }
    }

    pub fn mantissa(&self) -> (res: i128)
        ensures
            res == self.mantissa_value(),
            decimal_in_range(self.mantissa_value(), self.scale_value()),
    {
        proof {
            use_type_invariant(self);
        }
        self.mantissa
    }

    pub fn scale(&self) -> (res: u32)
        ensures
            res == self.scale_value(),
            decimal_in_range(self.mantissa_value(), self.scale_value()),
    {
        proof {
            use_type_invariant(self);
        }
        self.scale
    }
}

} // verus!
