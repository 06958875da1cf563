//! Character-level helpers shared by the conversion rules: decimal digits,
//! the canonical text of an integer, and the reading of such text.

use vstd::prelude::*;
use vstd::string::*;
use vstd::utf8::encode_utf8_decode_utf8;

verus! {

/// The decimal digit that `c` stands for, if it is one of `'0'..='9'`.
pub open spec fn digit_of(c: char) -> Option<int> {
    if c == '0' {
        Some(0)
    } else if c == '1' {
        Some(1)
    } else if c == '2' {
        Some(2)
    } else if c == '3' {
        Some(3)
    } else if c == '4' {
        Some(4)
    } else if c == '5' {
        Some(5)
    } else if c == '6' {
        Some(6)
    } else if c == '7' {
        Some(7)
    } else if c == '8' {
        Some(8)
    } else if c == '9' {
        Some(9)
    } else {
        None
    }
}

pub open spec fn is_digit(c: char) -> bool {
    digit_of(c) is Some
}

/// The character that writes the digit `d`; `'0'` outside `0..=9`.
pub open spec fn digit_char(d: int) -> char {
    if d == 1 {
        '1'
    } else if d == 2 {
        '2'
    } else if d == 3 {
        '3'
    } else if d == 4 {
        '4'
    } else if d == 5 {
        '5'
    } else if d == 6 {
        '6'
    } else if d == 7 {
        '7'
    } else if d == 8 {
        '8'
    } else if d == 9 {
        '9'
    } else {
        '0'
    }
}

pub open spec fn all_digits(s: Seq<char>) -> bool {
    forall|i: int| 0 <= i < s.len() ==> is_digit(#[trigger] s[i])
}

/// The number written by a run of digits, most significant first. A
/// character that is no digit counts as zero.
pub open spec fn digits_value(s: Seq<char>) -> nat
    decreases s.len(),
{
    if s.len() == 0 {
        0
    } else {
        let d = match digit_of(s.last()) {
            Some(d) => d as nat,
            None => 0,
        };
        digits_value(s.drop_last()) * 10 + d
    }
}

/// A run of `n` zeros.
pub open spec fn zeros(n: nat) -> Seq<char> {
    Seq::new(n, |i: int| '0')
}

/// The canonical decimal text of a natural number: no sign, no leading
/// zero except for zero itself.
pub open spec fn nat_text(n: nat) -> Seq<char>
    decreases n,
{
    if n < 10 {
        seq![digit_char(n as int)]
    } else {
        nat_text(n / 10).push(digit_char((n % 10) as int))
    }
}

/// The canonical decimal text of an integer: a leading `-` for negative
/// numbers, then the text of the magnitude.
pub open spec fn int_text(n: int) -> Seq<char> {
    if n < 0 {
        seq!['-'] + nat_text((-n) as nat)
    } else {
        nat_text(n as nat)
    }
}

/// A non-empty run of digits read as a natural number.
pub open spec fn parse_nat(s: Seq<char>) -> Option<nat> {
    if s.len() > 0 && all_digits(s) {
        Some(digits_value(s))
    } else {
        None
    }
}

/// An optional sign (`+` or `-`) followed by a non-empty run of digits,
/// read as an integer of any size.
pub open spec fn parse_int(s: Seq<char>) -> Option<int> {
    if s.len() > 0 && s[0] == '-' {
        match parse_nat(s.skip(1)) {
            Some(m) => Some(-(m as int)),
            None => None,
        }
    } else if s.len() > 0 && s[0] == '+' {
        match parse_nat(s.skip(1)) {
            Some(m) => Some(m as int),
            None => None,
        }
    } else {
        match parse_nat(s) {
            Some(m) => Some(m as int),
            None => None,
        }
    }
}

/// [`parse_int`], kept only where the number fits 128 signed bits, which
/// hold every integer of 64 bits, signed or not.
pub open spec fn parse_integer(s: Seq<char>) -> Option<i128> {
    match parse_int(s) {
        Some(n) => if i128::MIN <= n <= i128::MAX {
            Some(n as i128)
        } else {
            None
        },
        None => None,
    }
}

/// The text of a number is a non-empty run of digits that reads back as the
/// number.
pub proof fn lemma_nat_text_reads_back(n: nat)
    ensures
        nat_text(n).len() > 0,
        all_digits(nat_text(n)),
        digits_value(nat_text(n)) == n,
        parse_nat(nat_text(n)) == Some(n),
    decreases n,
{
    if n < 10 {
        let s = nat_text(n);
        assert(s.drop_last() =~= Seq::<char>::empty());
        assert(digits_value(s.drop_last()) == 0);
    } else {
        lemma_nat_text_reads_back(n / 10);
        let head = nat_text(n / 10);
        let s = nat_text(n);
        assert(s.drop_last() =~= head);
        assert(s.last() == digit_char((n % 10) as int));
        assert forall|i: int| 0 <= i < s.len() implies is_digit(#[trigger] s[i]) by {
            if i < head.len() {
                assert(s[i] == head[i]);
            }
        }
    }
}

/// The text of an integer reads back as the integer.
pub proof fn lemma_int_text_reads_back(n: int)
    ensures
        parse_int(int_text(n)) == Some(n),
{
    if n < 0 {
        let m = (-n) as nat;
        lemma_nat_text_reads_back(m);
        let s = int_text(n);
        assert(s.skip(1) =~= nat_text(m));
    } else {
        lemma_nat_text_reads_back(n as nat);
        let s = nat_text(n as nat);
        assert(is_digit(s[0]));
    }
}

/// A run of digits is worth at least as much as any of its prefixes.
pub proof fn lemma_digits_value_grows(s: Seq<char>, k: int)
    requires
        0 <= k <= s.len(),
    ensures
        digits_value(s.take(k)) <= digits_value(s),
    decreases s.len() - k,
{
    if k == s.len() {
        assert(s.take(k) =~= s);
    } else {
        lemma_digits_value_grows(s.drop_last(), k);
        assert(s.drop_last().take(k) =~= s.take(k));
    }
}

/// The digit that `c` stands for, if it is one.
pub fn digit_value(c: char) -> (res: Option<u8>)
    ensures
        match res {
            Some(d) => digit_of(c) == Some(d as int) && d < 10,
            None => digit_of(c) is None,
        },
{
    match c {
        '0' => Some(0),
        '1' => Some(1),
        '2' => Some(2),
        '3' => Some(3),
        '4' => Some(4),
        '5' => Some(5),
        '6' => Some(6),
        '7' => Some(7),
        '8' => Some(8),
        '9' => Some(9),
        _ => None,
    }
}

/// The one-character text of a digit.
pub(crate) fn digit_text(d: u128) -> (res: &'static str)
    requires
        d < 10,
    ensures
        res@ == seq![digit_char(d as int)],
{
    proof {
        reveal_strlit("0");
        reveal_strlit("1");
        reveal_strlit("2");
        reveal_strlit("3");
        reveal_strlit("4");
        reveal_strlit("5");
        reveal_strlit("6");
        reveal_strlit("7");
        reveal_strlit("8");
        reveal_strlit("9");
    }
    let res = if d == 0 {
        "0"
    } else if d == 1 {
        "1"
    } else if d == 2 {
        "2"
    } else if d == 3 {
        "3"
    } else if d == 4 {
        "4"
    } else if d == 5 {
        "5"
    } else if d == 6 {
        "6"
    } else if d == 7 {
        "7"
    } else if d == 8 {
        "8"
    } else {
        "9"
    };
    assert(res@ =~= seq![digit_char(d as int)]);
    res
}

/// The characters of `s`, in order.
pub fn chars_of(s: &str) -> (res: Vec<char>)
    ensures
        res@ == s@,
{
    let mut out: Vec<char> = Vec::new();
    for c in it: s.chars()
        invariant
            it.seq() == s@,
            out@ == s@.take(it.index() as int),
    {
        out.push(c);
    }
    out
}

/// Whether two strings hold the same characters.
pub fn same_text(a: &str, b: &str) -> (res: bool)
    ensures
        res == (a@ == b@),
{
    let left = a.as_bytes();
    let right = b.as_bytes();
    proof {
        encode_utf8_decode_utf8(a@);
        encode_utf8_decode_utf8(b@);
    }
    if left.len() != right.len() {
        return false;
    }
    let mut i: usize = 0;
    while i < left.len()
        invariant
            i <= left.len(),
            left.len() == right.len(),
            left@ == a.spec_bytes(),
            right@ == b.spec_bytes(),
            forall|k: int| 0 <= k < i ==> left@[k] == right@[k],
        decreases left.len() - i,
    {
        if left[i] != right[i] {
            return false;
        }
        i += 1;
    }
    assert(left@ =~= right@);
    true
}

/// The canonical decimal text of `n`.
pub fn nat_to_text(n: u128) -> (res: String)
    ensures
        res@ == nat_text(n as nat),
    decreases n,
{
    if n < 10 {
        digit_text(n).to_owned()
    } else {
        let mut out = nat_to_text(n / 10);
        out.append(digit_text(n % 10));
        out
    }
}

/// The canonical decimal text of `n`.
pub fn integer_to_text(n: i128) -> (res: String)
    ensures
        res@ == int_text(n as int),
{
    if n < 0 {
        let magnitude: u128 = if n == i128::MIN {
            170141183460469231731687303715884105728u128
        } else {
            (-n) as u128
        };
        let digits = nat_to_text(magnitude);
        proof {
            reveal_strlit("-");
        }
        let mut out = "-".to_owned();
        out.append(digits.as_str());
        assert(out@ =~= int_text(n as int));
        out
    } else {
        nat_to_text(n as u128)
    }
}

/// Reads a non-empty run of digits in `chars[from..]` as a number no
/// greater than `limit`.
pub(crate) fn read_digits(chars: &Vec<char>, from: usize, limit: u128) -> (res: Option<u128>)
    requires
        from <= chars.len(),
        limit <= 170141183460469231731687303715884105728u128,
    ensures
        res == match parse_nat(chars@.skip(from as int)) {
            Some(m) => if m <= limit {
                Some(m as u128)
            } else {
                None
            },
            None => None,
        },
{
    let ghost run = chars@.skip(from as int);
    if from == chars.len() {
        return None;
    }
    let mut total: u128 = 0;
    let mut over: bool = false;
    let mut i: usize = from;
    while i < chars.len()
        invariant
            from <= i <= chars.len(),
            run == chars@.skip(from as int),
            all_digits(run.take(i - from)),
            !over ==> total == digits_value(run.take(i - from)),
            over ==> digits_value(run.take(i - from)) > limit,
            total <= limit,
            limit <= 170141183460469231731687303715884105728u128,
        decreases chars.len() - i,
    {
        let ghost before = run.take(i - from);
        let ghost after = run.take(i + 1 - from);
        assert(after.drop_last() =~= before);
        assert(after.last() == chars@[i as int]);
        match digit_value(chars[i]) {
            None => {
                assert(!is_digit(run[i - from]));
                return None;
            },
            Some(d) => {
                assert(digits_value(after) == digits_value(before) * 10 + d);
                if over || total > limit / 10 {
                    over = true;
                } else {
                    let next: u128 = total * 10 + d as u128;
                    if next > limit {
                        over = true;
                    } else {
                        total = next;
                    }
                }
                assert forall|j: int| 0 <= j < after.len() implies is_digit(
                    #[trigger] after[j],
                ) by {
                    if j < before.len() {
                        assert(after[j] == before[j]);
                    }
                }
            },
        }
        i += 1;
    }
    assert(run.take(i - from) =~= run);
    if over {
        None
    } else {
        Some(total)
    }
}

/// Reads an optional sign and a non-empty run of digits as an integer of
/// 128 bits. Anything else, and any number out of range, reads as `None`.
pub fn parse_integer_text(s: &str) -> (res: Option<i128>)
    ensures
        res == parse_integer(s@),
{
    let chars = chars_of(s);
    if chars.len() > 0 && chars[0] == '-' {
        match read_digits(&chars, 1, 170141183460469231731687303715884105728u128) {
            Some(m) => {
                if m == 170141183460469231731687303715884105728u128 {
                    Some(i128::MIN)
                } else {
                    Some(-(m as i128))
                }
            },
            None => None,
        }
    } else if chars.len() > 0 && chars[0] == '+' {
        match read_digits(&chars, 1, 170141183460469231731687303715884105727u128) {
            Some(m) => Some(m as i128),
            None => None,
        }
    } else {
        assert(chars@.skip(0) =~= chars@);
        match read_digits(&chars, 0, 170141183460469231731687303715884105727u128) {
            Some(m) => Some(m as i128),
            None => None,
        }
    }
}

} // verus!
