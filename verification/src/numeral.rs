//! Decimal numerals of machine integers.

use crate::text::chars_of;
use vstd::prelude::*;

verus! {

/// An ASCII decimal digit.
pub open spec fn is_digit(c: char) -> bool {
    '0' <= c <= '9'
}

/// The number that a row of digits denotes in base ten.
pub open spec fn decimal_value(digits: Seq<char>) -> int
    decreases digits.len(),
{
    if digits.len() == 0 {
        0
    } else {
        10 * decimal_value(digits.drop_last()) + (digits.last() as int - '0' as int)
    }
}

/// A non-empty row of digits.
pub open spec fn is_decimal(digits: Seq<char>) -> bool {
    digits.len() > 0 && forall|i: int| 0 <= i < digits.len() ==> is_digit(#[trigger] digits[i])
}

/// A numeral without the plus sign that may stand in front of it.
pub open spec fn unsigned_part(s: Seq<char>) -> Seq<char> {
    if s.len() > 0 && s[0] == '+' {
        s.drop_first()
    } else {
        s
    }
}

/// The `usize` that a text denotes: an optional plus sign, then digits, in range.
pub open spec fn usize_denoted(s: Seq<char>) -> Option<usize> {
    let digits = unsigned_part(s);
    if is_decimal(digits) && decimal_value(digits) <= usize::MAX {
        Some(decimal_value(digits) as usize)
    } else {
        None
    }
}

/// The character of a digit.
pub open spec fn digit_char(d: int) -> char {
    ('0' as int + d) as char
}

/// The shortest decimal numeral of a number.
pub open spec fn numeral(n: nat) -> Seq<char>
    decreases n,
{
    if n < 10 {
        seq![digit_char(n as int)]
    } else {
        numeral(n / 10).push(digit_char((n % 10) as int))
    }
}

/// A row of digits denotes no less than each of its beginnings.
proof fn lemma_decimal_value_grows(digits: Seq<char>, k: int)
    requires
        0 <= k <= digits.len(),
        forall|i: int| 0 <= i < digits.len() ==> is_digit(#[trigger] digits[i]),
    ensures
        0 <= decimal_value(digits.take(k)) <= decimal_value(digits),
    decreases digits.len() - k,
{
    if k == digits.len() {
        assert(digits.take(k) == digits);
        lemma_decimal_value_nonnegative(digits);
    } else {
        lemma_decimal_value_grows(digits, k + 1);
        assert(digits.take(k + 1).drop_last() == digits.take(k));
        assert(is_digit(digits[k]));
        lemma_decimal_value_nonnegative(digits.take(k));
    }
}

/// A row of digits denotes a natural number.
proof fn lemma_decimal_value_nonnegative(digits: Seq<char>)
    requires
        forall|i: int| 0 <= i < digits.len() ==> is_digit(#[trigger] digits[i]),
    ensures
        decimal_value(digits) >= 0,
    decreases digits.len(),
{
    if digits.len() > 0 {
        assert(is_digit(digits[digits.len() - 1]));
        assert forall|i: int| 0 <= i < digits.drop_last().len() implies is_digit(
            #[trigger] digits.drop_last()[i],
        ) by {
            assert(is_digit(digits[i]));
        }
        lemma_decimal_value_nonnegative(digits.drop_last());
    }
}

/// The numeral of a number is a row of digits that denotes it.
proof fn lemma_numeral_denotes(n: nat)
    ensures
        is_decimal(numeral(n)),
        decimal_value(numeral(n)) == n,
    decreases n,
{
    reveal_with_fuel(decimal_value, 2);
    if n < 10 {
        assert(seq![digit_char(n as int)].drop_last() == Seq::<char>::empty());
    } else {
        lemma_numeral_denotes(n / 10);
        let last = digit_char((n % 10) as int);
        assert(numeral(n / 10).push(last).drop_last() == numeral(n / 10));
    }
}

/// Reading a number's numeral gives the number back, with or without a plus sign in front.
pub proof fn law_numeral_reads_back(n: usize)
    ensures
        usize_denoted(numeral(n as nat)) == Some(n),
        usize_denoted(seq!['+'] + numeral(n as nat)) == Some(n),
{
    lemma_numeral_denotes(n as nat);
    assert(is_digit(numeral(n as nat)[0]));
    assert((seq!['+'] + numeral(n as nat)).drop_first() == numeral(n as nat));
}

/// Reads a text as a `usize`.
pub fn read_usize(s: &str) -> (r: Option<usize>)
    ensures
        r == usize_denoted(s@),
{
    let chars = chars_of(s);
    let n: usize = chars.len();
    let mut i: usize = 0;
    if n > 0 && chars[0] == '+' {
        i = 1;
    }
    if i == n {
        return None;
    }
    let ghost from = i as int;
    let ghost digits = unsigned_part(s@);
    assert(digits == s@.skip(from));
    let mut value: usize = 0;
    assert(digits.take(0) == Seq::<char>::empty());
    while i < n
        invariant
            n == chars@.len(),
            chars@ == s@,
            from <= i <= n,
            0 <= from < n,
            digits == unsigned_part(s@),
            digits == s@.skip(from),
            forall|j: int| 0 <= j < i - from ==> is_digit(#[trigger] digits[j]),
            value == decimal_value(digits.take(i - from)),
        decreases n - i,
    {
        let c = chars[i];
        let ghost k = i - from;
        assert(digits[k] == c);
        assert(digits.take(k + 1).drop_last() == digits.take(k));
        if !('0' <= c && c <= '9') {
            assert(!is_digit(digits[k]));
            return None;
        }
        let d: usize = (c as u32 - '0' as u32) as usize;
        assert(decimal_value(digits.take(k + 1)) == 10 * value + d);
        if value > (usize::MAX - d) / 10 {
            proof {
                if is_decimal(digits) {
                    lemma_decimal_value_grows(digits, k + 1);
                }
                assert(10 * value + d > usize::MAX);
            }
            return None;
        }
        value = 10 * value + d;
        i = i + 1;
    }
    assert(digits.take(n - from) == digits);
    Some(value)
}

/// The text of a single digit.
fn digit_text(d: usize) -> (r: String)
    requires
        d < 10,
    ensures
        r@ == seq![digit_char(d as int)],
{
    proof {
        reveal_strlit("0");
        reveal_strlit("1");
        reveal_strlit("2");
        reveal_strlit("3");
        reveal_strlit("4");
        reveal_strlit("5");
        reveal_strlit("6");
        reveal_strlit("7");
        reveal_strlit("8");
        reveal_strlit("9");
    }
    let text = match d {
        0 => "0",
        1 => "1",
        2 => "2",
        3 => "3",
        4 => "4",
        5 => "5",
        6 => "6",
        7 => "7",
        8 => "8",
        _ => "9",
    };
    assert(text@ =~= seq![digit_char(d as int)]);
    text.to_owned()
}

/// Writes a number in decimal.
pub fn usize_text(n: usize) -> (r: String)
    ensures
        r@ == numeral(n as nat),
    decreases n,
{
    if n < 10 {
        digit_text(n)
    } else {
        let last = digit_text(n % 10);
        let ghost front = numeral((n / 10) as nat);
        assert(front + seq![digit_char((n % 10) as int)] == front.push(
            digit_char((n % 10) as int),
        ));
        usize_text(n / 10).concat(last.as_str())
    }
}

/// Numbers are written in base ten, with the usual digits and the last digit last.
pub proof fn law_numerals_grow_by_digits(n: nat, d: nat)
    requires
        d < 10,
    ensures
        numeral(d) == seq!["0123456789"@[d as int]],
        n > 0 ==> numeral(10 * n + d) == numeral(n).push("0123456789"@[d as int]),
{
    reveal_strlit("0123456789");
    assert(digit_char(d as int) == "0123456789"@[d as int]);
    assert((10 * n + d) / 10 == n && (10 * n + d) % 10 == d);
}

/// A row of digits is the numeral of what it denotes, with zeros in front.
proof fn lemma_digits_are_padded_numeral(digits: Seq<char>) -> (z: nat)
    requires
        is_decimal(digits),
    ensures
        decimal_value(digits) >= 0,
        digits == Seq::new(z, |i: int| '0') + numeral(decimal_value(digits) as nat),
    decreases digits.len(),
{
    let front = digits.drop_last();
    let d = digits.last() as int - '0' as int;
    assert(is_digit(digits[digits.len() - 1]));
    assert(digits == front.push(digits.last()));
    assert(digit_char(d) == digits.last());
    if front.len() == 0 {
        assert(decimal_value(front) == 0);
        assert(digits == Seq::new(0, |i: int| '0') + numeral(d as nat));
        0
    } else {
        assert forall|i: int| 0 <= i < front.len() implies is_digit(#[trigger] front[i]) by {
            assert(is_digit(digits[i]));
        }
        let z = lemma_digits_are_padded_numeral(front);
        let v = decimal_value(front) as nat;
        let zeros = Seq::new(z, |i: int| '0');
        if v == 0 {
            assert(numeral(0) == seq!['0']);
            assert(digits == Seq::new(z + 1, |i: int| '0') + numeral(d as nat));
            z + 1
        } else {
            assert((10 * v + d) / 10 == v && (10 * v + d) % 10 == d);
            assert(digits == zeros + numeral((10 * v + d) as nat));
            z
        }
    }
}

/// Zeros in front of a numeral do not change what it denotes.
proof fn lemma_padded_numeral_denotes(z: nat, n: nat)
    ensures
        is_decimal(Seq::new(z, |i: int| '0') + numeral(n)),
        decimal_value(Seq::new(z, |i: int| '0') + numeral(n)) == n,
{
    lemma_numeral_denotes(n);
    lemma_padding_keeps_value(z, numeral(n));
    let all = Seq::new(z, |i: int| '0') + numeral(n);
    assert forall|i: int| 0 <= i < all.len() implies is_digit(#[trigger] all[i]) by {
        if i >= z {
            assert(is_digit(numeral(n)[i - z]));
        }
    }
}

/// Zeros in front of digits do not change what they denote.
proof fn lemma_padding_keeps_value(z: nat, digits: Seq<char>)
    ensures
        decimal_value(Seq::new(z, |i: int| '0') + digits) == decimal_value(digits),
    decreases z + digits.len(),
{
    let zeros = Seq::new(z, |i: int| '0');
    if digits.len() == 0 {
        if z > 0 {
            assert((zeros + digits).drop_last() == Seq::new((z - 1) as nat, |i: int| '0') + digits);
            lemma_padding_keeps_value((z - 1) as nat, digits);
        } else {
            assert(zeros + digits == digits);
        }
    } else {
        assert((zeros + digits).drop_last() == zeros + digits.drop_last());
        assert((zeros + digits).last() == digits.last());
        lemma_padding_keeps_value(z, digits.drop_last());
    }
}

/// A text is read as a number exactly where it is the number's numeral, with any zeros and
/// then at most one plus sign in front.
pub proof fn law_numbers_are_read_from_numerals(s: Seq<char>, n: usize)
    ensures
        usize_denoted(s) == Some(n) <==> exists|zeros: Seq<char>|
            (forall|i: int| 0 <= i < zeros.len() ==> zeros[i] == '0') && (s == #[trigger] (zeros
                + numeral(n as nat)) || s == seq!['+'] + (zeros + numeral(n as nat))),
{
    let shown = numeral(n as nat);
    if usize_denoted(s) == Some(n) {
        let z = lemma_digits_are_padded_numeral(unsigned_part(s));
        let zeros = Seq::new(z, |i: int| '0');
        if s.len() > 0 && s[0] == '+' {
            assert(s == seq!['+'] + (zeros + shown));
        } else {
            assert(s == zeros + shown);
        }
    }
    if exists|zeros: Seq<char>|
        (forall|i: int| 0 <= i < zeros.len() ==> zeros[i] == '0') && (s == #[trigger] (zeros
            + shown) || s == seq!['+'] + (zeros + shown)) {
        let zeros = choose|zeros: Seq<char>|
            (forall|i: int| 0 <= i < zeros.len() ==> zeros[i] == '0') && (s == #[trigger] (zeros
                + shown) || s == seq!['+'] + (zeros + shown));
        assert(zeros == Seq::new(zeros.len(), |i: int| '0'));
        let digits = zeros + shown;
        lemma_padded_numeral_denotes(zeros.len(), n as nat);
        assert(is_digit(digits[0]));
        if s == seq!['+'] + (zeros + shown) {
            assert(s[0] == '+');
            assert(s.drop_first() == digits);
        }
    }
}

} // verus!
