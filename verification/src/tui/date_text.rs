//! Which texts can be handed to the date parser.
//!
//! The parser looks at the beginning of names and counts in 32 bits. It cannot take a name that
//! does not begin in ASCII, nor a number that is too large for what it counts. Both matter only as
//! far as the parser reads: it looks at one name, and some names end a date.

use crate::format::{chars_of, is_digit};
use crate::text::is_white_space;
use vstd::prelude::*;

verus! {

/// How many years a text may count: so many that their months can be counted in 32 bits.
pub const MAX_YEARS: i64 = 178_956_969;

/// How many months a text may count: so many that a year more can be counted in 32 bits.
pub const MAX_MONTHS: i64 = 2_147_483_635;

/// The first hour that cannot be moved to the afternoon in 32 bits.
pub const LATE_HOUR: i64 = 4_294_967_284;

/// How many minutes the offset of a time zone may have: so many that their seconds can be counted
/// in 32 bits.
pub const MAX_OFFSET_MINUTES: i64 = 71_582_788;

/// Whether a character has Unicode's Alphabetic property.
pub uninterp spec fn alphabetic(c: char) -> bool;

/// Whether a character has Unicode's Alphabetic property or is numeric.
pub uninterp spec fn alphanumeric(c: char) -> bool;

/// Whether a character is an ASCII letter.
pub open spec fn is_ascii_letter(c: char) -> bool {
    'a' <= c <= 'z' || 'A' <= c <= 'Z'
}

/// `char::is_alphabetic` depends on the character alone; of ASCII characters it holds of letters.
pub assume_specification[ char::is_alphabetic ](c: char) -> (r: bool)
    ensures
        r == alphabetic(c),
        c < '\u{80}' ==> r == is_ascii_letter(c),
;

/// `char::is_alphanumeric` depends on the character alone; of ASCII characters it holds of letters
/// and digits.
pub assume_specification[ char::is_alphanumeric ](c: char) -> (r: bool)
    ensures
        r == alphanumeric(c),
        c < '\u{80}' ==> r == (is_ascii_letter(c) || is_digit(c)),
;

/// Whether a word starts at position `i`. The `e` of an exponent, right behind a point, starts
/// none.
pub open spec fn starts_word(s: Seq<char>, i: int) -> bool {
    &&& s[i] == '_' || alphabetic(s[i])
    &&& !(0 < i && s[i - 1] == '.' && (s[i] == 'e' || s[i] == 'E'))
}

/// Whether a character can be in a word.
pub open spec fn in_word(c: char) -> bool {
    c == '_' || alphanumeric(c)
}

/// Where the first word at or behind position `i` starts.
pub open spec fn next_word(s: Seq<char>, i: int) -> int
    decreases s.len() - i,
{
    if 0 <= i < s.len() && !starts_word(s, i) {
        next_word(s, i + 1)
    } else {
        i
    }
}

/// Where the word around position `i` ends.
pub open spec fn word_end(s: Seq<char>, i: int) -> int
    decreases s.len() - i,
{
    if 0 <= i < s.len() && in_word(s[i]) {
        word_end(s, i + 1)
    } else {
        i
    }
}

/// Whether the word at position `k` is `word`.
pub open spec fn word_is(s: Seq<char>, k: int, word: Seq<char>) -> bool {
    0 <= k < s.len() && word_end(s, k) <= s.len() && s.subrange(k, word_end(s, k)) == word
}

/// Where the digits end that start at `a`.
pub open spec fn number_end(s: Seq<char>, a: int) -> int
    decreases s.len() - a,
{
    if 0 <= a < s.len() && is_digit(s[a]) {
        number_end(s, a + 1)
    } else {
        a
    }
}

/// Where the digits start that end at `b`.
pub open spec fn number_start(s: Seq<char>, b: int) -> int
    decreases b,
{
    if 0 < b && is_digit(s[b - 1]) {
        number_start(s, b - 1)
    } else {
        b
    }
}

/// The lower 32 bits of the number that ends at `b`.
pub open spec fn low_word(s: Seq<char>, b: int) -> int
    decreases b,
{
    if 0 < b && is_digit(s[b - 1]) {
        (low_word(s, b - 1) * 10 + (s[b - 1] as int - '0' as int)) % 4_294_967_296
    } else {
        0
    }
}

/// 32 bits as a number with a sign.
pub open spec fn signed_word(v: int) -> int {
    if v < 2_147_483_648 {
        v
    } else {
        v - 4_294_967_296
    }
}

/// Where the next character at or behind position `b` stands that is not white space.
pub open spec fn next_mark(s: Seq<char>, b: int) -> int
    decreases s.len() - b,
{
    if 0 <= b < s.len() && is_white_space(s[b]) {
        next_mark(s, b + 1)
    } else {
        b
    }
}

/// Where the last character before position `a` stands that is not white space; -1 if there is
/// none.
pub open spec fn last_mark(s: Seq<char>, a: int) -> int
    decreases a,
{
    if 0 < a && is_white_space(s[a - 1]) {
        last_mark(s, a - 1)
    } else {
        a - 1
    }
}

/// Where the last character stands before the number around position `p` that is not white space.
pub open spec fn before_number(s: Seq<char>, p: int) -> int {
    last_mark(s, number_start(s, p + 1))
}

/// Whether a character is a sign.
pub open spec fn is_sign(c: char) -> bool {
    c == '+' || c == '-'
}

/// Whether the word at position `k` belongs to a time of day that the text begins with. It does not
/// behind a number that comes behind another one or behind a sign.
pub open spec fn is_time_word(s: Seq<char>, k: int) -> bool {
    let a = next_mark(s, 0);
    let b = number_end(s, a);
    a < b < s.len() && if s[b] == ':' || s[b] == '.' {
        let p = last_mark(s, k);
        let q = before_number(s, p);
        &&& word_is(s, k, "am"@) || word_is(s, k, "pm"@) || word_is(s, k, "Z"@)
        &&& !(0 <= p && is_digit(s[p]) && 0 <= q && (is_digit(s[q]) || is_sign(s[q])))
    } else {
        (s[b] == 'a' || s[b] == 'p') && k == b
    }
}

/// Where the word starts that the parser takes for a name: the first one that does not belong to a
/// time of day and is not the word for a direction.
pub open spec fn named_word(s: Seq<char>) -> int {
    let first = next_word(s, 0);
    let second = if is_time_word(s, first) { next_word(s, word_end(s, first)) } else { first };
    if word_is(s, second, "next"@) || word_is(s, second, "last"@) {
        next_word(s, word_end(s, second))
    } else {
        second
    }
}

/// Whether the first three characters of the word at `k`, or all if there are fewer, are ASCII. A
/// dotted capital I in the third place is as good as an `i`.
pub open spec fn is_plain_word(s: Seq<char>, k: int) -> bool {
    forall|i: int| k <= i < k + 3 && i < word_end(s, k) ==> #[trigger] s[i] < '\u{80}' || (i == k + 2
        && s[i] == '\u{130}')
}

/// Whether a number ends at `b`.
pub open spec fn ends_number(s: Seq<char>, b: int) -> bool {
    0 < b <= s.len() && is_digit(s[b - 1]) && (b < s.len() ==> !is_digit(s[b]))
}

/// Whether the text begins with an hour and a colon.
pub open spec fn begins_with_time(s: Seq<char>) -> bool {
    let a = next_mark(s, 0);
    let b = number_end(s, a);
    a < b < s.len() && s[b] == ':'
}

/// Whether a minus at position `p` comes before a date: at the start of the text, behind a word or
/// behind a number, if that cannot be a time of day with an offset to come.
pub open spec fn negates_date(s: Seq<char>, p: int) -> bool {
    let q = last_mark(s, p);
    s[p] == '-' && (q < 0 || (in_word(s[q]) && (!is_digit(s[q]) || !begins_with_time(s)
        || ends_offset(s, q))))
}

/// Whether the number around position `q` ends an offset: it comes behind a sign, or behind a colon
/// and a number that does.
pub open spec fn ends_offset(s: Seq<char>, q: int) -> bool {
    let r = before_number(s, q);
    let x = last_mark(s, r);
    let y = before_number(s, x);
    0 <= r && (is_sign(s[r]) || (s[r] == ':' && 0 <= x && is_digit(s[x]) && 0 <= y && is_sign(s[y])))
}

/// Whether the number that ends at `b` is one with which a date starts: at the start of the text or
/// behind a number or a word, and maybe behind a minus.
pub open spec fn starts_date(s: Seq<char>, b: int) -> bool {
    let a = number_start(s, b);
    let p = last_mark(s, a);
    &&& a == 0 || is_white_space(s[a - 1]) || s[a - 1] == '-'
    &&& p < 0 || in_word(s[p]) || negates_date(s, p)
}

/// Whether the number that ends at `b` starts a date in numbers, or a time of day where that can
/// no longer come before a name.
pub open spec fn starts_numeric_date(s: Seq<char>, b: int) -> bool {
    let n = next_mark(s, b);
    &&& ends_number(s, b)
    &&& starts_date(s, b)
    &&& n < s.len()
    &&& s[n] == '-' || s[n] == '/' || ((s[n] == ':' || s[n] == '.') && (n > b || last_mark(
        s,
        number_start(s, b),
    ) >= 0))
}

/// Whether a date in numbers starts before position `k`.
pub open spec fn has_numeric_date(s: Seq<char>, k: int) -> bool {
    exists|b: int| b <= k && #[trigger] starts_numeric_date(s, b)
}

/// Whether the parser can look at the name in a text.
pub open spec fn has_plain_name(s: Seq<char>) -> bool {
    let k = named_word(s);
    k >= s.len() || is_plain_word(s, k) || has_numeric_date(s, k)
}

/// A character, or the lower case of an ASCII capital.
pub open spec fn lower(c: char) -> char {
    if 'A' <= c <= 'Z' {
        (c as int + 32) as char
    } else {
        c
    }
}

/// Whether the word at `k` begins with three given letters, in either case.
pub open spec fn begins(s: Seq<char>, k: int, x: char, y: char, z: char) -> bool {
    k + 2 < s.len() && lower(s[k]) == x && lower(s[k + 1]) == y && lower(s[k + 2]) == z
}

/// Whether the word at `k` names a unit of time.
pub open spec fn is_unit(s: Seq<char>, k: int) -> bool {
    if word_end(s, k) < k + 3 {
        let c = lower(s[k]);
        c == 's' || c == 'm' || c == 'h' || c == 'w' || c == 'd' || c == 'y'
    } else {
        begins(s, k, 's', 'e', 'c') || begins(s, k, 'm', 'i', 'n') || begins(s, k, 'h', 'o', 'u')
            || begins(s, k, 'd', 'a', 'y') || begins(s, k, 'w', 'e', 'e') || begins(
            s,
            k,
            'm',
            'o',
            'n',
        ) || begins(s, k, 'y', 'e', 'a')
    }
}

/// Whether the word at `k` is a date by itself.
pub open spec fn is_day(s: Seq<char>, k: int) -> bool {
    word_is(s, k, "now"@) || word_is(s, k, "today"@) || word_is(s, k, "yesterday"@) || word_is(
        s,
        k,
        "tomorrow"@,
    )
}

/// Where the word behind the one at `k` starts, if only white space lies between them.
pub open spec fn word_behind(s: Seq<char>, k: int) -> int {
    next_mark(s, word_end(s, k))
}

/// Whether a minus stands before the number that stands before the word at `k`.
pub open spec fn has_minus(s: Seq<char>, k: int) -> bool {
    let p = last_mark(s, k);
    let q = before_number(s, p);
    0 <= p && is_digit(s[p]) && 0 <= q && s[q] == '-'
}

/// How far the parser reads at most: up to a word that is a date by itself, up to a unit of time
/// that is counted with a minus, or up to `ago`, and else to the end.
pub open spec fn read_end(s: Seq<char>) -> int {
    let k = named_word(s);
    if k >= s.len() {
        s.len() as int
    } else if is_day(s, k) {
        word_end(s, k)
    } else if is_unit(s, k) && word_is(s, word_behind(s, k), "ago"@) {
        word_end(s, word_behind(s, k))
    } else if is_unit(s, k) && has_minus(s, k) {
        word_end(s, k)
    } else {
        s.len() as int
    }
}

/// Whether the number that ends at `b` can count the years, months or other units that the name
/// at `k` stands for, where that comes next. The digits of a fraction count nothing.
pub open spec fn counts_units(s: Seq<char>, b: int, k: int) -> bool {
    let a = number_start(s, b);
    let v = signed_word(low_word(s, b));
    (0 < a && s[a - 1] == '.') || k >= s.len() || next_mark(s, b) != k || {
        &&& is_unit(s, k) && lower(s[k]) == 'y' ==> -MAX_YEARS <= v <= MAX_YEARS
        &&& begins(s, k, 'm', 'o', 'n') ==> -MAX_MONTHS <= v <= MAX_MONTHS
        &&& v == -2_147_483_648 ==> !has_minus(s, k) && !word_is(s, word_behind(s, k), "ago"@)
    }
}

/// Whether a character can come behind an hour.
pub open spec fn follows_hour(c: char) -> bool {
    c == ':' || c == '.' || c == 'a' || c == 'A' || c == 'p' || c == 'P'
}

/// Whether a word for the afternoon may be at position `i`: `pm`, or a `p` without white space before
/// it.
pub open spec fn is_afternoon(s: Seq<char>, i: int) -> bool {
    0 <= i < s.len() && s[i] == 'p' && ((0 < i && !is_white_space(s[i - 1])) || word_is(s, i, "pm"@))
}

/// Whether a text has a word for the afternoon.
pub open spec fn has_afternoon(s: Seq<char>) -> bool {
    exists|i: int| #[trigger] is_afternoon(s, i)
}

/// Whether the number that ends at `b` can be an hour, where the text may move it to the
/// afternoon.
pub open spec fn names_hour(s: Seq<char>, b: int) -> bool {
    let n = next_mark(s, b);
    low_word(s, b) < LATE_HOUR || n >= s.len() || !follows_hour(s[n]) || !has_afternoon(s)
}

/// The minutes of the offset that the number ending at `b` begins: hours and minutes with a colon
/// between them, or both in one number.
pub open spec fn offset_minutes(s: Seq<char>, b: int) -> int {
    let v = low_word(s, b);
    if b < s.len() && s[b] == ':' {
        v * 60 + low_word(s, number_end(s, next_mark(s, b + 1)))
    } else {
        v / 100 * 60 + v % 100
    }
}

/// Whether the number that ends at `b` can begin the offset of a time zone, where it may: behind a
/// sign, and that behind a time of day.
pub open spec fn names_offset(s: Seq<char>, b: int) -> bool {
    let p = last_mark(s, number_start(s, b));
    p < 0 || !s.take(p).contains(':') || !is_sign(s[p]) || offset_minutes(s, b)
        <= MAX_OFFSET_MINUTES
}

/// Whether the number that ends at `b` is of moderate size.
pub open spec fn is_moderate(s: Seq<char>, b: int, k: int) -> bool {
    counts_units(s, b, k) && names_hour(s, b) && names_offset(s, b)
}

/// Whether all numbers in a text are of moderate size, when its name is at `k`.
pub open spec fn has_moderate_numbers(s: Seq<char>, k: int) -> bool {
    forall|b: int| #[trigger] ends_number(s, b) ==> is_moderate(s, b, k)
}

/// Where the first NUL at or behind position `i` stands, at which the parser stops. Behind a point
/// it goes on.
pub open spec fn nul_at(s: Seq<char>, i: int) -> int
    decreases s.len() - i,
{
    if 0 <= i < s.len() && (s[i] != '\0' || (0 < i && s[i - 1] == '.')) {
        nul_at(s, i + 1)
    } else {
        i
    }
}

/// Whether a text without a NUL can be handed to the date parser: its name is plain, and the
/// numbers are moderate as far as the parser reads.
pub open spec fn can_be_read(s: Seq<char>) -> bool {
    has_plain_name(s) && has_moderate_numbers(s.take(read_end(s)), named_word(s))
}

/// Whether a text can be handed to the date parser.
pub open spec fn is_date_text(s: Seq<char>) -> bool {
    can_be_read(s.take(nul_at(s, 0)))
}

fn is_space(c: char) -> (r: bool)
    ensures
        r == is_white_space(c),
{
    ('\u{9}' <= c && c <= '\u{d}') || c == ' ' || c == '\u{85}' || c == '\u{a0}' || c == '\u{1680}'
        || ('\u{2000}' <= c && c <= '\u{200a}') || c == '\u{2028}' || c == '\u{2029}' || c
        == '\u{202f}' || c == '\u{205f}' || c == '\u{3000}'
}

fn digit(c: char) -> (r: bool)
    ensures
        r == is_digit(c),
{
    c >= '0' && c <= '9'
}

fn word_char(c: char) -> (r: bool)
    ensures
        r == in_word(c),
{
    c == '_' || c.is_alphanumeric()
}

fn to_lower(c: char) -> (r: char)
    ensures
        r == lower(c),
{
    if c >= 'A' && c <= 'Z' {
        (c as u8 + 32) as char
    } else {
        c
    }
}

fn has_char(v: &Vec<char>, end: usize, c: char) -> (r: bool)
    requires
        end <= v@.len(),
    ensures
        r == v@.take(end as int).contains(c),
{
    let mut i: usize = 0;
    while i < end
        invariant
            i <= end <= v@.len(),
            forall|j: int| 0 <= j < i ==> v@[j] != c,
        decreases end - i,
    {
        if v[i] == c {
            assert(v@.take(end as int)[i as int] == c);
            return true;
        }
        i = i + 1;
    }
    false
}

fn find_next(v: &Vec<char>, b: usize) -> (n: usize)
    requires
        b <= v@.len(),
    ensures
        n == next_mark(v@, b as int),
        b <= n <= v@.len(),
{
    let mut n = b;
    while n < v.len() && is_space(v[n])
        invariant
            b <= n <= v@.len(),
            next_mark(v@, n as int) == next_mark(v@, b as int),
        decreases v@.len() - n,
    {
        n = n + 1;
    }
    n
}

/// One more than the place of the last character before `a` that is not white space.
fn find_last(v: &Vec<char>, a: usize) -> (p: usize)
    requires
        a <= v@.len(),
    ensures
        p == last_mark(v@, a as int) + 1,
        p <= a,
{
    let mut p = a;
    while p > 0 && is_space(v[p - 1])
        invariant
            p <= a <= v@.len(),
            last_mark(v@, p as int) == last_mark(v@, a as int),
        decreases p,
    {
        p = p - 1;
    }
    p
}

fn find_start(v: &Vec<char>, b: usize) -> (a: usize)
    requires
        b <= v@.len(),
    ensures
        a == number_start(v@, b as int),
        a <= b,
        a > 0 ==> !is_digit(v@[a - 1]),
        forall|j: int| a <= j < b ==> is_digit(#[trigger] v@[j]),
{
    let mut a = b;
    while a > 0 && digit(v[a - 1])
        invariant
            a <= b <= v@.len(),
            number_start(v@, a as int) == number_start(v@, b as int),
            forall|j: int| a <= j < b ==> is_digit(#[trigger] v@[j]),
        decreases a,
    {
        a = a - 1;
    }
    a
}

fn find_end(v: &Vec<char>, a: usize) -> (b: usize)
    requires
        a <= v@.len(),
    ensures
        b == number_end(v@, a as int),
        a <= b <= v@.len(),
{
    let mut b = a;
    while b < v.len() && digit(v[b])
        invariant
            a <= b <= v@.len(),
            number_end(v@, b as int) == number_end(v@, a as int),
        decreases v@.len() - b,
    {
        b = b + 1;
    }
    b
}

fn read_low(v: &Vec<char>, b: usize) -> (value: i64)
    requires
        b <= v@.len(),
    ensures
        value == low_word(v@, b as int),
        0 <= value < 4_294_967_296,
{
    let mut i = find_start(v, b);
    let mut value: i64 = 0;
    let ghost a = i;
    while i < b
        invariant
            a <= i <= b <= v@.len(),
            forall|j: int| a <= j < b ==> is_digit(#[trigger] v@[j]),
            value == low_word(v@, i as int),
            0 <= value < 4_294_967_296,
        decreases b - i,
    {
        value = (value * 10 + (v[i] as i64 - 48)) % 4_294_967_296;
        i = i + 1;
    }
    value
}

fn word_starts(v: &Vec<char>, i: usize) -> (r: bool)
    requires
        i < v@.len(),
    ensures
        r == starts_word(v@, i as int),
{
    let c = v[i];
    (c == '_' || c.is_alphabetic()) && !(i > 0 && v[i - 1] == '.' && (c == 'e' || c == 'E'))
}

fn find_word(v: &Vec<char>, i: usize) -> (k: usize)
    requires
        i <= v@.len(),
    ensures
        k == next_word(v@, i as int),
        i <= k <= v@.len(),
{
    let mut k = i;
    while k < v.len() && !word_starts(v, k)
        invariant
            i <= k <= v@.len(),
            next_word(v@, k as int) == next_word(v@, i as int),
        decreases v@.len() - k,
    {
        k = k + 1;
    }
    k
}

fn find_word_end(v: &Vec<char>, i: usize) -> (e: usize)
    requires
        i <= v@.len(),
    ensures
        e == word_end(v@, i as int),
        i <= e <= v@.len(),
{
    let mut e = i;
    while e < v.len() && word_char(v[e])
        invariant
            i <= e <= v@.len(),
            word_end(v@, e as int) == word_end(v@, i as int),
        decreases v@.len() - e,
    {
        e = e + 1;
    }
    e
}

fn is_word(v: &Vec<char>, k: usize, word: &str) -> (r: bool)
    requires
        k <= v@.len(),
    ensures
        r == word_is(v@, k as int, word@),
{
    if k >= v.len() {
        return false;
    }
    let e = find_word_end(v, k);
    let w = chars_of(word);
    let ghost there = v@.subrange(k as int, e as int);
    if w.len() != e - k {
        return false;
    }
    let mut i: usize = 0;
    while i < w.len()
        invariant
            i <= w@.len() == e - k,
            k <= e <= v@.len(),
            w@ == word@,
            e == word_end(v@, k as int),
            there == v@.subrange(k as int, e as int),
            forall|j: int| 0 <= j < i ==> there[j] == w@[j],
        decreases w@.len() - i,
    {
        if v[k + i] != w[i] {
            assert(there[i as int] == v@[k + i]);
            assert(there != w@);
            return false;
        }
        i = i + 1;
    }
    assert(there =~= w@);
    true
}

fn time_word(v: &Vec<char>, k: usize) -> (r: bool)
    requires
        k <= v@.len(),
    ensures
        r == is_time_word(v@, k as int),
{
    let a = find_next(v, 0);
    let b = find_end(v, a);
    if b == a || b >= v.len() {
        false
    } else if v[b] == ':' || v[b] == '.' {
        if !(is_word(v, k, "am") || is_word(v, k, "pm") || is_word(v, k, "Z")) {
            return false;
        }
        let p = find_last(v, k);
        if p == 0 || !digit(v[p - 1]) {
            return true;
        }
        let q = find_last(v, find_start(v, p));
        q == 0 || !(digit(v[q - 1]) || v[q - 1] == '+' || v[q - 1] == '-')
    } else {
        (v[b] == 'a' || v[b] == 'p') && k == b
    }
}

fn find_named(v: &Vec<char>) -> (k: usize)
    ensures
        k == named_word(v@),
        k <= v@.len(),
{
    let first = find_word(v, 0);
    let second = if time_word(v, first) { find_word(v, find_word_end(v, first)) } else { first };
    if is_word(v, second, "next") || is_word(v, second, "last") {
        find_word(v, find_word_end(v, second))
    } else {
        second
    }
}

fn plain_word(v: &Vec<char>, k: usize) -> (r: bool)
    requires
        k < v@.len(),
    ensures
        r == is_plain_word(v@, k as int),
{
    let e = find_word_end(v, k);
    let mut i = k;
    while i < e && i - k < 3
        invariant
            k <= i <= e <= v@.len(),
            i - k <= 3,
            e == word_end(v@, k as int),
            forall|j: int| k <= j < i ==> #[trigger] v@[j] < '\u{80}' || (j == k + 2 && v@[j]
                == '\u{130}'),
        decreases e - i,
    {
        if v[i] >= '\u{80}' && !(i - k == 2 && v[i] == '\u{130}') {
            assert(!(v@[i as int] < '\u{80}'));
            return false;
        }
        i = i + 1;
    }
    true
}

fn number_ends(v: &Vec<char>, b: usize) -> (r: bool)
    requires
        b <= v@.len(),
    ensures
        r == ends_number(v@, b as int),
{
    b > 0 && digit(v[b - 1]) && (b >= v.len() || !digit(v[b]))
}

fn date_starts(v: &Vec<char>, b: usize) -> (r: bool)
    requires
        b <= v@.len(),
    ensures
        r == starts_date(v@, b as int),
{
    let a = find_start(v, b);
    if !(a == 0 || is_space(v[a - 1]) || v[a - 1] == '-') {
        return false;
    }
    let p = find_last(v, a);
    if p == 0 || word_char(v[p - 1]) {
        return true;
    }
    negates(v, p - 1)
}

fn time_at_start(v: &Vec<char>) -> (r: bool)
    ensures
        r == begins_with_time(v@),
{
    let a = find_next(v, 0);
    let b = find_end(v, a);
    a < b && b < v.len() && v[b] == ':'
}

fn negates(v: &Vec<char>, p: usize) -> (r: bool)
    requires
        p < v@.len(),
    ensures
        r == negates_date(v@, p as int),
{
    if v[p] != '-' {
        return false;
    }
    let q = find_last(v, p);
    if q == 0 {
        return true;
    }
    if !word_char(v[q - 1]) {
        return false;
    }
    if !digit(v[q - 1]) || !time_at_start(v) {
        return true;
    }
    let r = find_last(v, find_start(v, q));
    if r == 0 {
        return false;
    }
    if v[r - 1] == '+' || v[r - 1] == '-' {
        return true;
    }
    if v[r - 1] != ':' {
        return false;
    }
    let x = find_last(v, r - 1);
    if x == 0 || !digit(v[x - 1]) {
        return false;
    }
    let y = find_last(v, find_start(v, x));
    y > 0 && (v[y - 1] == '+' || v[y - 1] == '-')
}

fn numeric_date(v: &Vec<char>, k: usize) -> (r: bool)
    requires
        k <= v@.len(),
    ensures
        r == has_numeric_date(v@, k as int),
{
    let mut b: usize = 0;
    while b < k
        invariant
            b <= k <= v@.len(),
            forall|j: int| j <= b ==> !#[trigger] starts_numeric_date(v@, j),
        decreases k - b,
    {
        b = b + 1;
        let n = find_next(v, b);
        if number_ends(v, b) && date_starts(v, b) && n < v.len() {
            let later = n > b || find_last(v, find_start(v, b)) > 0;
            if v[n] == '-' || v[n] == '/' || ((v[n] == ':' || v[n] == '.') && later) {
                assert(starts_numeric_date(v@, b as int));
                return true;
            }
        }
    }
    false
}

fn begins_at(v: &Vec<char>, k: usize, x: char, y: char, z: char) -> (r: bool)
    requires
        k < v@.len(),
    ensures
        r == begins(v@, k as int, x, y, z),
{
    v.len() - k > 2 && to_lower(v[k]) == x && to_lower(v[k + 1]) == y && to_lower(v[k + 2]) == z
}

fn unit(v: &Vec<char>, k: usize) -> (r: bool)
    requires
        k < v@.len(),
    ensures
        r == is_unit(v@, k as int),
{
    if find_word_end(v, k) - k < 3 {
        let c = to_lower(v[k]);
        c == 's' || c == 'm' || c == 'h' || c == 'w' || c == 'd' || c == 'y'
    } else {
        begins_at(v, k, 's', 'e', 'c') || begins_at(v, k, 'm', 'i', 'n') || begins_at(
            v,
            k,
            'h',
            'o',
            'u',
        ) || begins_at(v, k, 'd', 'a', 'y') || begins_at(v, k, 'w', 'e', 'e') || begins_at(
            v,
            k,
            'm',
            'o',
            'n',
        ) || begins_at(v, k, 'y', 'e', 'a')
    }
}

fn day(v: &Vec<char>, k: usize) -> (r: bool)
    requires
        k <= v@.len(),
    ensures
        r == is_day(v@, k as int),
{
    is_word(v, k, "now") || is_word(v, k, "today") || is_word(v, k, "yesterday") || is_word(
        v,
        k,
        "tomorrow",
    )
}

fn find_behind(v: &Vec<char>, k: usize) -> (n: usize)
    requires
        k <= v@.len(),
    ensures
        n == word_behind(v@, k as int),
        k <= n <= v@.len(),
{
    find_next(v, find_word_end(v, k))
}

fn minus(v: &Vec<char>, k: usize) -> (r: bool)
    requires
        k <= v@.len(),
    ensures
        r == has_minus(v@, k as int),
{
    let p = find_last(v, k);
    if p == 0 || !digit(v[p - 1]) {
        return false;
    }
    let q = find_last(v, find_start(v, p));
    q > 0 && v[q - 1] == '-'
}

fn find_read_end(v: &Vec<char>, k: usize) -> (e: usize)
    requires
        k == named_word(v@),
        k <= v@.len(),
    ensures
        e == read_end(v@),
        e <= v@.len(),
{
    if k >= v.len() {
        return v.len();
    }
    let behind = find_behind(v, k);
    if day(v, k) {
        find_word_end(v, k)
    } else if unit(v, k) && is_word(v, behind, "ago") {
        find_word_end(v, behind)
    } else if unit(v, k) && minus(v, k) {
        find_word_end(v, k)
    } else {
        v.len()
    }
}

fn check_units(v: &Vec<char>, b: usize, k: usize) -> (r: bool)
    requires
        b <= v@.len(),
    ensures
        r == counts_units(v@, b as int, k as int),
{
    let start = find_start(v, b);
    if (start > 0 && v[start - 1] == '.') || k >= v.len() || find_next(v, b) != k {
        return true;
    }
    let value = read_low(v, b);
    let count = if value < 2_147_483_648 { value } else { value - 4_294_967_296 };
    if unit(v, k) && to_lower(v[k]) == 'y' && (count < -MAX_YEARS || count > MAX_YEARS) {
        false
    } else if begins_at(v, k, 'm', 'o', 'n') && (count < -MAX_MONTHS || count > MAX_MONTHS) {
        false
    } else {
        count != -2_147_483_648 || (!minus(v, k) && !is_word(v, find_behind(v, k), "ago"))
    }
}

fn afternoon(v: &Vec<char>) -> (r: bool)
    ensures
        r == has_afternoon(v@),
{
    let mut i: usize = 0;
    while i < v.len()
        invariant
            i <= v@.len(),
            forall|j: int| j < i ==> !#[trigger] is_afternoon(v@, j),
        decreases v@.len() - i,
    {
        if v[i] == 'p' && ((i > 0 && !is_space(v[i - 1])) || is_word(v, i, "pm")) {
            assert(is_afternoon(v@, i as int));
            return true;
        }
        i = i + 1;
    }
    false
}

fn check_hour(v: &Vec<char>, b: usize) -> (r: bool)
    requires
        b <= v@.len(),
    ensures
        r == names_hour(v@, b as int),
{
    let n = find_next(v, b);
    if read_low(v, b) < LATE_HOUR || n >= v.len() {
        return true;
    }
    let c = v[n];
    let hour = c == ':' || c == '.' || c == 'a' || c == 'A' || c == 'p' || c == 'P';
    !hour || !afternoon(v)
}

fn check_offset(v: &Vec<char>, b: usize) -> (r: bool)
    requires
        b <= v@.len(),
    ensures
        r == names_offset(v@, b as int),
{
    let p = find_last(v, find_start(v, b));
    if p == 0 || !has_char(v, p - 1, ':') || !(v[p - 1] == '+' || v[p - 1] == '-') {
        return true;
    }
    let value = read_low(v, b);
    let minutes = if b < v.len() && v[b] == ':' {
        value * 60 + read_low(v, find_end(v, find_next(v, b + 1)))
    } else {
        value / 100 * 60 + value % 100
    };
    minutes <= MAX_OFFSET_MINUTES
}

fn check_numbers(v: &Vec<char>, k: usize) -> (r: bool)
    ensures
        r == has_moderate_numbers(v@, k as int),
{
    let mut b: usize = 0;
    while b < v.len()
        invariant
            b <= v@.len(),
            forall|j: int| j <= b && #[trigger] ends_number(v@, j) ==> is_moderate(v@, j, k as int),
        decreases v@.len() - b,
    {
        b = b + 1;
        if number_ends(v, b) {
            if !check_units(v, b, k) || !check_hour(v, b) || !check_offset(v, b) {
                assert(ends_number(v@, b as int));
                return false;
            }
        }
    }
    true
}

fn take_front(v: &Vec<char>, e: usize) -> (w: Vec<char>)
    requires
        e <= v@.len(),
    ensures
        w@ == v@.take(e as int),
{
    let mut w: Vec<char> = Vec::new();
    let mut i: usize = 0;
    while i < e
        invariant
            i <= e <= v@.len(),
            w@ == v@.take(i as int),
        decreases e - i,
    {
        w.push(v[i]);
        i = i + 1;
        assert(w@ =~= v@.take(i as int));
    }
    w
}

/// Tells whether a text can be handed to the date parser.
pub fn check_date_text(s: &str) -> (r: bool)
    ensures
        r == is_date_text(s@),
{
    let all = chars_of(s);
    let mut n: usize = 0;
    while n < all.len() && (all[n] != '\0' || (n > 0 && all[n - 1] == '.'))
        invariant
            n <= all@.len(),
            nul_at(all@, n as int) == nul_at(all@, 0),
        decreases all@.len() - n,
    {
        n = n + 1;
    }
    let v = take_front(&all, n);
    let k = find_named(&v);
    let named = k >= v.len() || plain_word(&v, k) || numeric_date(&v, k);
    let read = take_front(&v, find_read_end(&v, k));
    named && check_numbers(&read, k)
}

spec fn ten_to(n: nat) -> int
    decreases n,
{
    if n == 0 {
        1
    } else {
        10 * ten_to((n - 1) as nat)
    }
}

proof fn lemma_short_number(s: Seq<char>, b: int, n: nat, i: int)
    requires
        0 <= b <= s.len(),
        b - n - 1 <= i < b,
        i < 0 || !is_digit(s[i]),
    ensures
        0 <= low_word(s, b) < ten_to(n),
    decreases n,
{
    if 0 < b && is_digit(s[b - 1]) {
        lemma_short_number(s, b - 1, (n - 1) as nat, i);
    } else {
        lemma_ten_to(n);
    }
}

proof fn lemma_ten_to(n: nat)
    ensures
        ten_to(n) >= 1,
    decreases n,
{
    if n > 0 {
        lemma_ten_to((n - 1) as nat);
    }
}

/// Whether no more than six digits of a text stand in a row.
pub open spec fn has_short_numbers(s: Seq<char>) -> bool {
    forall|a: int|
        #![trigger s.subrange(a, a + 7)]
        0 <= a && a + 7 <= s.len() ==> exists|i: int|
            a <= i < a + 7 && !('0' <= #[trigger] s[i] <= '9')
}

proof fn lemma_six_digits(s: Seq<char>, len: int, b: int)
    requires
        has_short_numbers(s),
        0 <= b <= len <= s.len(),
    ensures
        0 <= low_word(s.take(len), b) < 1_000_000,
{
    let t = s.take(len);
    if b >= 7 {
        let part = s.subrange(b - 7, b - 7 + 7);
        let i = choose|i: int| b - 7 <= i < b - 7 + 7 && !('0' <= #[trigger] s[i] <= '9');
        assert(t[i] == s[i]);
        lemma_short_number(t, b, 6, i);
    } else {
        lemma_short_number(t, b, 6, -1);
    }
    reveal_with_fuel(ten_to, 7);
}

proof fn lemma_words_within(s: Seq<char>, i: int)
    requires
        0 <= i <= s.len(),
    ensures
        i <= next_word(s, i) <= s.len(),
        i <= word_end(s, i) <= s.len(),
        i <= next_mark(s, i) <= s.len(),
        i <= number_end(s, i) <= s.len(),
        i <= nul_at(s, i) <= s.len(),
    decreases s.len() - i,
{
    if i < s.len() {
        lemma_words_within(s, i + 1);
    }
}

#[verifier::rlimit(60)]
proof fn lemma_name_within(s: Seq<char>)
    ensures
        0 <= named_word(s) <= s.len(),
        0 <= read_end(s) <= s.len(),
{
    let first = next_word(s, 0);
    lemma_words_within(s, 0);
    lemma_words_within(s, first);
    let a = word_end(s, first);
    lemma_words_within(s, a);
    let second = if is_time_word(s, first) { next_word(s, a) } else { first };
    lemma_words_within(s, second);
    lemma_words_within(s, word_end(s, second));
    let k = named_word(s);
    lemma_words_within(s, k);
    lemma_words_within(s, word_end(s, k));
    lemma_words_within(s, word_behind(s, k));
}

/// Every text in ASCII whose numbers have no more than six digits can be handed to the date parser.
#[verifier::rlimit(60)]
pub proof fn lemma_ordinary_text(s: Seq<char>)
    requires
        forall|i: int| 0 <= i < s.len() ==> #[trigger] s[i] < '\u{80}',
        has_short_numbers(s),
    ensures
        is_date_text(s),
{
    lemma_words_within(s, 0);
    let n = nul_at(s, 0);
    let t = s.take(n);
    lemma_name_within(t);
    let k = named_word(t);
    lemma_words_within(t, k);
    assert forall|i: int| k <= i < k + 3 && i < word_end(t, k) implies #[trigger] t[i] < '\u{80}' by {
        assert(t[i] == s[i]);
    }
    let e = read_end(t);
    let u = t.take(e);
    assert(u =~= s.take(e));
    assert forall|b: int| #[trigger] ends_number(u, b) implies is_moderate(u, b, k) by {
        lemma_six_digits(s, e, b);
        if b < u.len() && u[b] == ':' {
            lemma_words_within(u, b + 1);
            lemma_words_within(u, next_mark(u, b + 1));
            lemma_six_digits(s, e, number_end(u, next_mark(u, b + 1)));
        }
        let v = low_word(u, b);
        assert(v / 100 * 60 + v % 100 <= MAX_OFFSET_MINUTES) by (nonlinear_arith)
            requires
                0 <= v < 1_000_000,
        ;
        assert(names_hour(u, b));
        assert(names_offset(u, b));
        assert(counts_units(u, b, k));
    }
}

/// A text that begins with a word in other letters than ASCII, and has neither a number nor a NUL, is
/// not handed to the date parser.
pub proof fn lemma_foreign_name(s: Seq<char>)
    requires
        s.len() > 0,
        alphabetic(s[0]) && alphanumeric(s[0]),
        s[0] >= '\u{80}',
        forall|i: int| 0 <= i < s.len() ==> #[trigger] s[i] != '\0' && !('0' <= s[i] <= '9'),
    ensures
        !is_date_text(s),
{
    lemma_no_nul(s, 0);
    assert(s.take(s.len() as int) =~= s);
    assert(starts_word(s, 0));
    assert(next_word(s, 0) == 0);
    lemma_words_within(s, 0);
    lemma_words_within(s, 1);
    let a = next_mark(s, 0);
    assert(number_end(s, a) == a);
    assert(!is_time_word(s, 0));
    assert(word_end(s, 0) == word_end(s, 1));
    let word = s.subrange(0, word_end(s, 0));
    assert(word[0] == s[0]);
    reveal_strlit("next");
    reveal_strlit("last");
    assert("next"@[0] == 'n' && "last"@[0] == 'l');
    assert(named_word(s) == 0);
    assert(!is_plain_word(s, 0));
    assert(!has_numeric_date(s, 0));
}

proof fn lemma_no_nul(s: Seq<char>, i: int)
    requires
        0 <= i <= s.len(),
        forall|j: int| 0 <= j < s.len() ==> #[trigger] s[j] != '\0',
    ensures
        nul_at(s, i) == s.len(),
    decreases s.len() - i,
{
    if i < s.len() {
        lemma_no_nul(s, i + 1);
    }
}

/// The limits are as wide as they can be: the months of so many years, and so many months, can be
/// counted in 32 bits with a sign together with those of a year more; an hour before the first late
/// one in the afternoon, and the seconds of so many minutes, in 32 bits without. Of one more none can.
pub proof fn lemma_limits()
    ensures
        (MAX_YEARS + 1) * 12 <= i32::MAX < (MAX_YEARS + 2) * 12,
        MAX_MONTHS + 12 == i32::MAX,
        LATE_HOUR - 1 + 12 == u32::MAX,
        MAX_OFFSET_MINUTES * 60 <= u32::MAX < (MAX_OFFSET_MINUTES + 1) * 60,
{
}

/// The numbers of moderate size are those that can be counted: years by their months, months with a
/// year more, any unit backwards, an hour in the afternoon and an offset in seconds.
pub proof fn lemma_countable(s: Seq<char>, b: int, k: int)
    requires
        is_moderate(s, b, k),
    ensures
        ({
            let v = low_word(s, b);
            let signed = if v < 2_147_483_648 { v } else { v - 4_294_967_296 };
            let a = number_start(s, b);
            let counts = k < s.len() && next_mark(s, b) == k && !(0 < a && s[a - 1] == '.');
            &&& counts && is_unit(s, k) && (s[k] == 'y' || s[k] == 'Y') ==> i32::MIN < signed * 12
                && signed * 12 < i32::MAX
            &&& counts && begins(s, k, 'm', 'o', 'n') ==> i32::MIN < signed - 12 && signed + 12
                <= i32::MAX
            &&& counts && has_minus(s, k) ==> signed > i32::MIN
        }),
        ({
            let n = next_mark(s, b);
            n < s.len() && (s[n] == ':' || s[n] == '.' || s[n] == 'a' || s[n] == 'A' || s[n] == 'p'
                || s[n] == 'P') && (exists|i: int| #[trigger] is_afternoon(s, i)) ==> low_word(s, b)
                + 12 <= u32::MAX
        }),
        ({
            let p = last_mark(s, number_start(s, b));
            p >= 0 && s.take(p).contains(':') && (s[p] == '+' || s[p] == '-') ==> offset_minutes(s, b)
                * 60 <= u32::MAX
        }),
{
}

} // verus!
