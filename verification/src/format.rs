//! Numbers as text, text as numbers, and padding.

use vstd::prelude::*;
use vstd::string::{StrSliceExecFns, StringExecFns};

verus! {

/// The characters of a text.
pub fn chars_of(s: &str) -> (v: Vec<char>)
    ensures
        v@ == s@,
{
    let mut v: Vec<char> = Vec::new();
    for c in it: s.chars()
        invariant
            v@ == s@.take(it.index()),
            it.seq() == s@,
    {
        assert(s@.take(it.index() + 1) =~= s@.take(it.index()).push(c));
        v.push(c);
    }
    assert(s@.take(s@.len() as int) =~= s@);
    v
}

/// The decimal digit with value `d`.
pub open spec fn digit_char(d: int) -> char {
    ('0' as int + d) as char
}

/// A natural number in decimal, without leading zeros.
pub open spec fn nat_text(n: nat) -> Seq<char>
    decreases n,
{
    if n < 10 {
        seq![digit_char(n as int)]
    } else {
        nat_text(n / 10).push(digit_char((n % 10) as int))
    }
}

/// An integer in decimal, with a minus sign where it is negative.
pub open spec fn int_text(n: int) -> Seq<char> {
    if n < 0 {
        seq!['-'] + nat_text((-n) as nat)
    } else {
        nat_text(n as nat)
    }
}

/// Writes a natural number in decimal.
pub fn format_u64(n: u64) -> (s: String)
    ensures
        s@ == nat_text(n as nat),
    decreases n,
{
    let d = (48 + n % 10) as u8 as char;
    if n < 10 {
        let mut s = String::new();
        s.push(d);
        assert(s@ =~= nat_text(n as nat));
        s
    } else {
        let mut s = format_u64(n / 10);
        s.push(d);
        s
    }
}

/// Writes an integer in decimal.
pub fn format_i64(n: i64) -> (s: String)
    ensures
        s@ == int_text(n as int),
{
    if n < 0 {
        let m = (-(n as i128)) as u64;
        let mut s = String::new();
        s.push('-');
        s.append(format_u64(m).as_str());
        assert(s@ =~= int_text(n as int));
        s
    } else {
        format_u64(n as u64)
    }
}

/// A text filled up with spaces on its left to at least `width` characters.
pub open spec fn padded_left(s: Seq<char>, width: nat) -> Seq<char> {
    if s.len() < width {
        Seq::new((width - s.len()) as nat, |i: int| ' ') + s
    } else {
        s
    }
}

/// Fills a text up with spaces on its left to at least `width` characters.
pub fn pad_left(s: &str, width: usize) -> (r: String)
    ensures
        r@ == padded_left(s@, width as nat),
{
    let n = s.unicode_len();
    let mut r = String::new();
    let mut i: usize = n;
    while i < width
        invariant
            n == s@.len(),
            n <= i,
            i <= width || i == n,
            r@ == Seq::new((i - n) as nat, |k: int| ' '),
        decreases width - i,
    {
        r.push(' ');
        i = i + 1;
        assert(r@ =~= Seq::new((i - n) as nat, |k: int| ' '));
    }
    r.append(s);
    assert(r@ =~= padded_left(s@, width as nat));
    r
}

/// Whether a character is a decimal digit.
pub open spec fn is_digit(c: char) -> bool {
    '0' <= c <= '9'
}

/// The number that a row of digits stands for.
pub open spec fn digits_value(s: Seq<char>) -> int
    decreases s.len(),
{
    if s.len() == 0 {
        0
    } else {
        digits_value(s.drop_last()) * 10 + (s.last() as int - '0' as int)
    }
}

/// Whether a text is one or more digits.
pub open spec fn is_number(s: Seq<char>) -> bool {
    s.len() > 0 && forall|i: int| 0 <= i < s.len() ==> is_digit(#[trigger] s[i])
}

/// The 64-bit integer that a text stands for: an optional sign and then digits.
pub open spec fn parsed_i64(s: Seq<char>) -> Option<i64> {
    let signed = s.len() > 0 && (s[0] == '-' || s[0] == '+');
    let digits = if signed { s.skip(1) } else { s };
    let value = if signed && s[0] == '-' { -digits_value(digits) } else { digits_value(digits) };
    if is_number(digits) && i64::MIN <= value <= i64::MAX {
        Some(value as i64)
    } else {
        None
    }
}

/// Reads a 64-bit integer; `None` for any other text and for numbers that do not fit.
pub fn parse_i64(s: &str) -> (r: Option<i64>)
    ensures
        r == parsed_i64(s@),
{
    let v = chars_of(s);
    let n = v.len();
    let negative = n > 0 && v[0] == '-';
    let start: usize = if n > 0 && (v[0] == '-' || v[0] == '+') { 1 } else { 0 };
    let ghost digits = s@.skip(start as int);
    assert(s@.skip(0) =~= s@);
    if start == n {
        return None;
    }
    let mut acc: i128 = 0;
    let mut big = false;
    let mut i = start;
    assert(digits.take(0) =~= Seq::<char>::empty());
    while i < n
        invariant
            start <= i <= n,
            start == (if n > 0 && (v@[0] == '-' || v@[0] == '+') { 1int } else { 0 }),
            s@.skip(0) == s@,
            n == v@.len(),
            v@ == s@,
            digits == s@.skip(start as int),
            forall|k: int| 0 <= k < i - start ==> is_digit(#[trigger] digits[k]),
            0 <= acc <= 9223372036854775808,
            !big ==> acc == digits_value(digits.take(i - start)),
            big ==> digits_value(digits.take(i - start)) > 9223372036854775808,
        decreases n - i,
    {
        let c = v[i];
        let ghost before = digits.take(i - start);
        let ghost after = digits.take(i - start + 1);
        assert(after.drop_last() =~= before);
        assert(after.last() == c);
        assert(digits[i - start] == c);
        if !(c >= '0' && c <= '9') {
            return None;
        }
        if !big {
            let next = acc * 10 + (c as i128 - 48);
            if next > 9223372036854775808 {
                big = true;
            } else {
                acc = next;
            }
        }
        i = i + 1;
    }
    assert(digits.take(i - start) =~= digits);
    if big {
        return None;
    }
    let value = if negative { -acc } else { acc };
    if value > 9223372036854775807 {
        None
    } else {
        Some(value as i64)
    }
}

proof fn lemma_digit_char(d: int)
    requires
        0 <= d < 10,
    ensures
        is_digit(digit_char(d)),
        digit_char(d) as int - '0' as int == d,
{
}

proof fn lemma_nat_text_digits(n: nat)
    ensures
        is_number(nat_text(n)),
        digits_value(nat_text(n)) == n,
    decreases n,
{
    let s = nat_text(n);
    let d = (n % 10) as int;
    lemma_digit_char(d);
    if n < 10 {
        assert(s.drop_last() =~= Seq::<char>::empty());
        assert(digits_value(s.drop_last()) == 0);
        assert(s.last() == digit_char(d));
    } else {
        lemma_nat_text_digits(n / 10);
        assert(s.drop_last() =~= nat_text(n / 10));
        assert(s.last() == digit_char(d));
        assert forall|i: int| 0 <= i < s.len() implies is_digit(#[trigger] s[i]) by {
            if i < s.len() - 1 {
                assert(s[i] == nat_text(n / 10)[i]);
            }
        }
    }
}

/// A 64-bit integer is read back from its decimal text.
pub proof fn lemma_int_text_parses(n: i64)
    ensures
        parsed_i64(int_text(n as int)) == Some(n),
{
    if n < 0 {
        lemma_nat_text_digits((-n) as nat);
        assert(int_text(n as int).skip(1) =~= nat_text((-n) as nat));
    } else {
        lemma_nat_text_digits(n as nat);
        assert(is_digit(nat_text(n as nat)[0]));
    }
}

/// A number in decimal has no leading zero, its digits are decimal, and they have its value.
pub proof fn lemma_decimal(n: nat)
    ensures
        nat_text(n).len() > 0,
        nat_text(n).len() > 1 ==> nat_text(n)[0] != '0',
        forall|i: int| 0 <= i < nat_text(n).len() ==> '0' <= #[trigger] nat_text(n)[i] <= '9',
        place_value(nat_text(n)) == n,
    decreases n,
{
    lemma_nat_text_digits(n);
    lemma_place_value(nat_text(n));
    if n >= 10 {
        lemma_decimal(n / 10);
        assert(nat_text(n)[0] == nat_text(n / 10)[0]);
        if nat_text(n / 10).len() == 1 {
            lemma_place_value(nat_text(n / 10));
            lemma_nat_text_digits(n / 10);
            let one = nat_text(n / 10);
            assert(one =~= seq![one[0]]);
            assert(one.drop_last() =~= Seq::<char>::empty());
            assert(digits_value(one) == one[0] as int - 48) by {
                assert(digits_value(one.drop_last()) == 0);
            }
        }
    }
    assert forall|i: int| 0 <= i < nat_text(n).len() implies '0' <= #[trigger] nat_text(n)[i]
        <= '9' by {
        assert(is_digit(nat_text(n)[i]));
    }
}

/// The value of a row of digits, each worth its place.
pub open spec fn place_value(s: Seq<char>) -> int
    decreases s.len(),
{
    if s.len() == 0 {
        0
    } else {
        10 * place_value(s.take(s.len() - 1)) + (s[s.len() - 1] as int - 48)
    }
}

proof fn lemma_place_value(s: Seq<char>)
    ensures
        place_value(s) == digits_value(s),
    decreases s.len(),
{
    if s.len() > 0 {
        assert(s.take(s.len() - 1) =~= s.drop_last());
        lemma_place_value(s.drop_last());
    }
}

/// A negative number has its minus before the digits of its opposite, and any other none.
pub proof fn lemma_minus(n: int)
    ensures
        n < 0 ==> int_text(n).len() > 1 && int_text(n)[0] == '-' && place_value(int_text(n).skip(1))
            == -n,
        n >= 0 ==> place_value(int_text(n)) == n && '0' <= int_text(n)[0] <= '9',
{
    if n < 0 {
        lemma_decimal((-n) as nat);
        assert(int_text(n).skip(1) =~= nat_text((-n) as nat));
    } else {
        lemma_decimal(n as nat);
        assert('0' <= nat_text(n as nat)[0]);
    }
}

/// Padding puts spaces before the text, as many as are missing, and no more.
pub proof fn lemma_padding(s: Seq<char>, width: nat)
    ensures
        padded_left(s, width).len() == (if s.len() < width { width } else { s.len() }),
        padded_left(s, width).skip(padded_left(s, width).len() - s.len()) == s,
        forall|i: int|
            0 <= i < padded_left(s, width).len() - s.len() ==> #[trigger] padded_left(s, width)[i]
                == ' ',
{
    assert(padded_left(s, width).skip(padded_left(s, width).len() - s.len()) =~= s);
}

/// Numbers are read with or without a sign; a minus gives the opposite; what holds anything but
/// digits, or none, is no number; and neither is one that does not fit.
pub proof fn lemma_reading_numbers(digits: Seq<char>)
    ensures
        ({
            let plain = forall|i: int|
                0 <= i < digits.len() ==> '0' <= #[trigger] digits[i] <= '9';
            let v = place_value(digits);
            &&& plain && digits.len() > 0 && v <= i64::MAX ==> parsed_i64(digits) == Some(v as i64)
                && parsed_i64(seq!['+'] + digits) == Some(v as i64)
            &&& plain && digits.len() > 0 && v <= i64::MAX + 1 ==> parsed_i64(seq!['-'] + digits)
                == Some((-v) as i64)
            &&& plain && v > i64::MAX ==> parsed_i64(digits) is None && parsed_i64(
                seq!['+'] + digits,
            ) is None
            &&& plain && v > i64::MAX + 1 ==> parsed_i64(seq!['-'] + digits) is None
            &&& !plain || digits.len() == 0 ==> parsed_i64(seq!['+'] + digits) is None
                && parsed_i64(seq!['-'] + digits) is None
            &&& digits.len() == 0 ==> parsed_i64(digits) is None
        }),
{
    lemma_place_value(digits);
    assert((seq!['+'] + digits).skip(1) =~= digits);
    assert((seq!['-'] + digits).skip(1) =~= digits);
    let plain = forall|i: int| 0 <= i < digits.len() ==> '0' <= #[trigger] digits[i] <= '9';
    if plain {
        assert(digits.len() > 0 ==> is_digit(digits[0]));
        lemma_digits_not_negative(digits);
    } else {
        let i = choose|i: int| 0 <= i < digits.len() && !('0' <= #[trigger] digits[i] <= '9');
        assert(!is_digit(digits[i]));
    }
}

proof fn lemma_digits_not_negative(s: Seq<char>)
    requires
        forall|i: int| 0 <= i < s.len() ==> '0' <= #[trigger] s[i] <= '9',
    ensures
        digits_value(s) >= 0,
    decreases s.len(),
{
    if s.len() > 0 {
        assert forall|i: int| 0 <= i < s.drop_last().len() implies '0' <= #[trigger] s.drop_last()[i]
            <= '9' by {
            assert(s.drop_last()[i] == s[i]);
        }
        lemma_digits_not_negative(s.drop_last());
        assert('0' <= s[s.len() - 1] <= '9');
    }
}

/// A text with anything but digits in it, but for a sign at its start, is no number.
pub proof fn lemma_no_number(s: Seq<char>, i: int)
    requires
        0 <= i < s.len(),
        !('0' <= s[i] <= '9'),
        i > 0 || (s[0] != '+' && s[0] != '-'),
    ensures
        parsed_i64(s) is None,
{
    if s[0] == '-' || s[0] == '+' {
        assert(!is_digit(s.skip(1)[i - 1]));
    } else {
        assert(!is_digit(s[i]));
    }
}

} // verus!
