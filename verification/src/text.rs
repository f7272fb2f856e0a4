//! Strings seen as characters and as UTF-8 bytes.
//!
//! Positions in a text are byte offsets. They are meaningful where a character
//! starts or the text ends: at a boundary.

use vstd::prelude::*;
use crate::tui::util::{char_boundary_left, char_boundary_right};
use vstd::string::{StringExecFns, StringSliceAdditionalSpecFns};
use vstd::utf8::{
    decode_utf8, decode_utf8_encode_utf8, decode_utf8_split, encode_scalar, encode_utf8,
    encode_utf8_decode_utf8, encode_utf8_first_scalar, encode_utf8_valid_utf8, is_char_boundary,
    is_char_boundary_start_end_of_seq, length_of_first_scalar, pop_first_scalar, valid_utf8,
    valid_utf8_split,
};

verus! {

/// Number of bytes that a text takes.
pub open spec fn byte_len(s: Seq<char>) -> nat {
    encode_utf8(s).len()
}

/// The byte at which the character with index `k` starts, or the text's end.
pub open spec fn offset(s: Seq<char>, k: int) -> int {
    byte_len(s.take(k)) as int
}

/// Whether a character starts at byte `b` of the text, or the text ends there.
pub open spec fn is_boundary(s: Seq<char>, b: int) -> bool {
    is_char_boundary(encode_utf8(s), b)
}

/// The last boundary at or before byte `pos`, or the text's end.
pub open spec fn boundary_before(s: Seq<char>, pos: int) -> int
    decreases pos,
{
    if pos <= 0 {
        0
    } else if pos > byte_len(s) {
        byte_len(s) as int
    } else if is_boundary(s, pos) {
        pos
    } else {
        boundary_before(s, pos - 1)
    }
}

/// The first boundary at or after byte `pos`, or the text's end.
pub open spec fn boundary_after(s: Seq<char>, pos: int) -> int
    decreases byte_len(s) - pos,
{
    if pos >= byte_len(s) {
        byte_len(s) as int
    } else if is_boundary(s, pos) {
        pos
    } else {
        boundary_after(s, pos + 1)
    }
}

/// How many characters lie before the boundary `b`.
pub open spec fn char_index(s: Seq<char>, b: int) -> int {
    choose|k: int| 0 <= k <= s.len() && #[trigger] offset(s, k) == b
}

/// The bytes of two texts in a row are the bytes of their concatenation.
pub proof fn lemma_encode_concat(a: Seq<char>, b: Seq<char>)
    ensures
        encode_utf8(a + b) == encode_utf8(a) + encode_utf8(b),
    decreases a.len(),
{
    if a.len() == 0 {
        assert(a + b =~= b);
        assert(encode_utf8(a) + encode_utf8(b) =~= encode_utf8(b));
    } else {
        lemma_encode_concat(a.drop_first(), b);
        assert((a + b).drop_first() =~= a.drop_first() + b);
        assert(encode_utf8(a + b) =~= encode_utf8(a) + encode_utf8(b));
    }
}

/// One character takes one to four bytes.
pub proof fn lemma_char_width(c: char)
    ensures
        1 <= byte_len(seq![c]) <= 4,
        byte_len(seq![c]) == encode_scalar(c as u32).len(),
{
    let s = seq![c];
    assert(s.drop_first() =~= Seq::<char>::empty());
    assert(encode_utf8(s.drop_first()).len() == 0);
}

/// Each character moves the offset on by its width.
pub proof fn lemma_offset_step(s: Seq<char>, k: int)
    requires
        0 <= k < s.len(),
    ensures
        offset(s, k + 1) == offset(s, k) + byte_len(seq![s[k]]),
        offset(s, k) < offset(s, k + 1),
{
    assert(s.take(k + 1) =~= s.take(k) + seq![s[k]]);
    lemma_encode_concat(s.take(k), seq![s[k]]);
    lemma_char_width(s[k]);
}

/// Offsets grow with the number of characters before them.
pub proof fn lemma_offset_mono(s: Seq<char>, i: int, j: int)
    requires
        0 <= i <= j <= s.len(),
    ensures
        offset(s, i) <= offset(s, j),
        i < j ==> offset(s, i) < offset(s, j),
    decreases j - i,
{
    if i < j {
        lemma_offset_mono(s, i, j - 1);
        lemma_offset_step(s, j - 1);
    }
}

/// The offsets run from nothing to the whole text.
pub proof fn lemma_offset_ends(s: Seq<char>)
    ensures
        offset(s, 0) == 0,
        offset(s, s.len() as int) == byte_len(s),
{
    assert(s.take(0) =~= Seq::<char>::empty());
    assert(s.take(s.len() as int) =~= s);
}

/// A boundary splits the bytes where it splits the characters.
pub proof fn lemma_boundary_is_offset(s: Seq<char>, b: int)
    requires
        is_boundary(s, b),
    ensures
        0 <= b <= byte_len(s),
        0 <= char_index(s, b) <= s.len(),
        offset(s, char_index(s, b)) == b,
        encode_utf8(s).subrange(0, b) == encode_utf8(s.take(char_index(s, b))),
        encode_utf8(s).subrange(b, byte_len(s) as int) == encode_utf8(s.skip(char_index(s, b))),
{
    let bytes = encode_utf8(s);
    encode_utf8_valid_utf8(s);
    lemma_boundary_range(bytes, b);
    let lo = bytes.subrange(0, b);
    let hi = bytes.subrange(b, bytes.len() as int);
    valid_utf8_split(bytes, b);
    decode_utf8_split(bytes, b);
    encode_utf8_decode_utf8(s);
    decode_utf8_encode_utf8(lo);
    decode_utf8_encode_utf8(hi);
    let k = decode_utf8(lo).len() as int;
    assert(s =~= decode_utf8(lo) + decode_utf8(hi));
    assert(s.take(k) =~= decode_utf8(lo));
    assert(s.skip(k) =~= decode_utf8(hi));
    assert(offset(s, k) == b);
    let j = char_index(s, b);
    assert(j == k) by {
        lemma_offset_mono(s, if j < k { j } else { k }, if j < k { k } else { j });
    }
}

proof fn lemma_boundary_range(bytes: Seq<u8>, b: int)
    requires
        valid_utf8(bytes),
        is_char_boundary(bytes, b),
    ensures
        0 <= b <= bytes.len(),
{
}

/// Where a character starts is a boundary, and `char_index` finds the character.
pub proof fn lemma_offset_is_boundary(s: Seq<char>, k: int)
    requires
        0 <= k <= s.len(),
    ensures
        is_boundary(s, offset(s, k)),
        char_index(s, offset(s, k)) == k,
        0 <= offset(s, k) <= byte_len(s),
    decreases k,
{
    encode_utf8_valid_utf8(s);
    lemma_offset_ends(s);
    lemma_offset_mono(s, 0, k);
    lemma_offset_mono(s, k, s.len() as int);
    if k == 0 {
        is_char_boundary_start_end_of_seq(encode_utf8(s));
    } else {
        let t = s.drop_first();
        lemma_offset_is_boundary(t, k - 1);
        encode_utf8_first_scalar(s);
        assert(pop_first_scalar(encode_utf8(s)) =~= encode_utf8(t));
        assert(s.take(k).drop_first() =~= t.take(k - 1));
        assert(offset(s, k) == length_of_first_scalar(encode_utf8(s)) + offset(t, k - 1));
    }
    let j = char_index(s, offset(s, k));
    lemma_offset_mono(s, if j < k { j } else { k }, if j < k { k } else { j });
}

/// Both ends of a text are boundaries.
pub proof fn lemma_boundary_ends(s: Seq<char>)
    ensures
        is_boundary(s, 0),
        is_boundary(s, byte_len(s) as int),
        char_index(s, 0) == 0,
        char_index(s, byte_len(s) as int) == s.len(),
{
    lemma_offset_ends(s);
    lemma_offset_is_boundary(s, 0);
    lemma_offset_is_boundary(s, s.len() as int);
}

/// A text has at least as many bytes as characters.
pub proof fn lemma_len_within_bytes(s: Seq<char>)
    ensures
        s.len() <= byte_len(s),
    decreases s.len(),
{
    if s.len() > 0 {
        let k = s.len() - 1;
        lemma_len_within_bytes(s.take(k));
        lemma_offset_step(s, k);
        lemma_offset_ends(s);
    }
}

/// Number of bytes in a text.
pub fn str_bytes(s: &str) -> (n: usize)
    ensures
        n == byte_len(s@),
{
    s.as_bytes().len()
}

/// `String::push` appends the given character at the end of the string.
pub assume_specification[ String::push ](s: &mut String, c: char)
    ensures
        final(s)@ == old(s)@.push(c),
;

/// Texts with the same bytes are the same text.
pub proof fn lemma_encode_injective(a: Seq<char>, b: Seq<char>)
    requires
        encode_utf8(a) == encode_utf8(b),
    ensures
        a == b,
{
    encode_utf8_decode_utf8(a);
    encode_utf8_decode_utf8(b);
}

/// Splits a text at a boundary.
pub fn split_text(s: &str, b: usize) -> (r: (&str, &str))
    requires
        is_boundary(s@, b as int),
    ensures
        r.0@ == s@.take(char_index(s@, b as int)),
        r.1@ == s@.skip(char_index(s@, b as int)),
{
    let r = s.split_at(b);
    proof {
        lemma_boundary_is_offset(s@, b as int);
        lemma_encode_injective(r.0@, s@.take(char_index(s@, b as int)));
        lemma_encode_injective(r.1@, s@.skip(char_index(s@, b as int)));
    }
    r
}

/// The part of a text between two boundaries.
pub open spec fn between(s: Seq<char>, a: int, b: int) -> Seq<char> {
    s.subrange(char_index(s, a), char_index(s, b))
}

/// The part of a text between two boundaries.
pub fn substring(s: &str, a: usize, b: usize) -> (r: &str)
    requires
        is_boundary(s@, a as int),
        is_boundary(s@, b as int),
        a <= b,
    ensures
        char_index(s@, a as int) <= char_index(s@, b as int),
        r@ == between(s@, a as int, b as int),
{
    let head = split_text(s, b).0;
    proof {
        let i = char_index(s@, a as int);
        let j = char_index(s@, b as int);
        lemma_boundary_is_offset(s@, a as int);
        lemma_boundary_is_offset(s@, b as int);
        if j < i {
            lemma_offset_mono(s@, j, i);
        }
        assert(head@.take(i) =~= s@.take(i));
        lemma_offset_is_boundary(head@, i);
        assert(head@.skip(i) =~= s@.subrange(i, j));
    }
    split_text(head, a).1
}

/// Whether a character has Unicode's White_Space property.
pub open spec fn is_white_space(c: char) -> bool {
    ||| '\u{9}' <= c <= '\u{d}'
    ||| c == ' '
    ||| c == '\u{85}'
    ||| c == '\u{a0}'
    ||| c == '\u{1680}'
    ||| '\u{2000}' <= c <= '\u{200a}'
    ||| c == '\u{2028}'
    ||| c == '\u{2029}'
    ||| c == '\u{202f}'
    ||| c == '\u{205f}'
    ||| c == '\u{3000}'
}

/// A text without the white space at its start.
pub open spec fn trimmed_start(s: Seq<char>) -> Seq<char>
    decreases s.len(),
{
    if s.len() > 0 && is_white_space(s.first()) {
        trimmed_start(s.drop_first())
    } else {
        s
    }
}

/// A text without the white space at its end.
pub open spec fn trimmed_end(s: Seq<char>) -> Seq<char>
    decreases s.len(),
{
    if s.len() > 0 && is_white_space(s.last()) {
        trimmed_end(s.drop_last())
    } else {
        s
    }
}

/// A text without the white space at both ends.
pub open spec fn trimmed(s: Seq<char>) -> Seq<char> {
    trimmed_end(trimmed_start(s))
}

/// White space around a text makes no difference to what is left when it is trimmed.
pub proof fn lemma_trimmed_blanks(before: Seq<char>, s: Seq<char>, after: Seq<char>)
    requires
        forall|i: int| 0 <= i < before.len() ==> is_white_space(#[trigger] before[i]),
        forall|i: int| 0 <= i < after.len() ==> is_white_space(#[trigger] after[i]),
    ensures
        trimmed(before + s + after) == trimmed(s),
    decreases before.len(),
{
    if before.len() == 0 {
        assert(before + s + after =~= s + after);
        lemma_trimmed_after(s, after);
    } else {
        assert((before + s + after).drop_first() =~= before.drop_first() + s + after);
        assert((before + s + after).first() == before[0]);
        lemma_trimmed_blanks(before.drop_first(), s, after);
    }
}

proof fn lemma_trimmed_after(s: Seq<char>, after: Seq<char>)
    requires
        forall|i: int| 0 <= i < after.len() ==> is_white_space(#[trigger] after[i]),
    ensures
        trimmed(s + after) == trimmed(s),
    decreases s.len(),
{
    if s.len() == 0 {
        assert(s + after =~= after);
        lemma_all_blank(after);
        assert(s =~= Seq::<char>::empty());
    } else if is_white_space(s.first()) {
        assert((s + after).drop_first() =~= s.drop_first() + after);
        lemma_trimmed_after(s.drop_first(), after);
    } else {
        assert((s + after).first() == s.first());
        lemma_trimmed_end(s, after);
    }
}

proof fn lemma_all_blank(s: Seq<char>)
    requires
        forall|i: int| 0 <= i < s.len() ==> is_white_space(#[trigger] s[i]),
    ensures
        trimmed_start(s) == Seq::<char>::empty(),
    decreases s.len(),
{
    if s.len() > 0 {
        assert(is_white_space(s[0]));
        lemma_all_blank(s.drop_first());
    } else {
        assert(s =~= Seq::<char>::empty());
    }
}

proof fn lemma_trimmed_end(s: Seq<char>, after: Seq<char>)
    requires
        forall|i: int| 0 <= i < after.len() ==> is_white_space(#[trigger] after[i]),
    ensures
        trimmed_end(s + after) == trimmed_end(s),
    decreases after.len(),
{
    if after.len() == 0 {
        assert(s + after =~= s);
    } else {
        assert((s + after).last() == after[after.len() - 1]);
        assert((s + after).drop_last() =~= s + after.drop_last());
        lemma_trimmed_end(s, after.drop_last());
    }
}

/// `str::trim` takes the characters with Unicode's White_Space property off both ends.
pub assume_specification[ str::trim ](s: &str) -> (r: &str)
    ensures
        r@ == trimmed(s@),
;

/// A change to a line of text or to the position of its cursor.
#[derive(Clone, Copy)]
pub enum TextEdit {
    Insert(char),
    Backspace,
    Delete,
    Left,
    Right,
    Home,
    End,
    Clear,
}

/// The line and the cursor after an edit, and whether the edit touched the text.
pub open spec fn edited(s: Seq<char>, cursor: int, edit: TextEdit) -> (Seq<char>, int, bool) {
    let k = char_index(s, cursor);
    match edit {
        TextEdit::Insert(c) => (s.insert(k, c), offset(s.insert(k, c), k + 1), true),
        TextEdit::Backspace => if cursor > 0 {
            (s.remove(k - 1), offset(s, k - 1), true)
        } else {
            (s, cursor, false)
        },
        TextEdit::Delete => if cursor < byte_len(s) {
            (s.remove(k), cursor, true)
        } else {
            (s, cursor, false)
        },
        TextEdit::Left => if cursor > 0 {
            (s, offset(s, k - 1), false)
        } else {
            (s, cursor, false)
        },
        TextEdit::Right => if cursor < byte_len(s) {
            (s, offset(s, k + 1), false)
        } else {
            (s, cursor, false)
        },
        TextEdit::Home => (s, 0, false),
        TextEdit::End => (s, byte_len(s) as int, false),
        TextEdit::Clear => (seq![], 0, true),
    }
}

/// The boundary before the one at `cursor`.
fn previous_boundary(s: &str, cursor: usize) -> (p: usize)
    requires
        is_boundary(s@, cursor as int),
        cursor > 0,
    ensures
        char_index(s@, cursor as int) > 0,
        p == offset(s@, char_index(s@, cursor as int) - 1),
        is_boundary(s@, p as int),
        char_index(s@, p as int) == char_index(s@, cursor as int) - 1,
{
    let p = char_boundary_left(s, cursor - 1);
    proof {
        let k = char_index(s@, cursor as int);
        let j = char_index(s@, p as int);
        lemma_boundary_is_offset(s@, cursor as int);
        lemma_boundary_is_offset(s@, p as int);
        lemma_offset_ends(s@);
        lemma_offset_is_boundary(s@, k - 1);
        lemma_offset_step(s@, k - 1);
        if j < k - 1 {
            lemma_offset_mono(s@, j, k - 1);
        }
        if j > k - 1 {
            lemma_offset_mono(s@, k, j);
        }
    }
    p
}

/// The boundary after the one at `cursor`.
pub fn next_boundary(s: &str, cursor: usize) -> (p: usize)
    requires
        is_boundary(s@, cursor as int),
        cursor < byte_len(s@),
    ensures
        char_index(s@, cursor as int) < s@.len(),
        p == offset(s@, char_index(s@, cursor as int) + 1),
        is_boundary(s@, p as int),
        char_index(s@, p as int) == char_index(s@, cursor as int) + 1,
{
    let n = str_bytes(s);
    let p = char_boundary_right(s, cursor + 1);
    proof {
        let k = char_index(s@, cursor as int);
        let j = char_index(s@, p as int);
        lemma_boundary_is_offset(s@, cursor as int);
        lemma_boundary_is_offset(s@, p as int);
        lemma_offset_ends(s@);
        lemma_offset_is_boundary(s@, k + 1);
        lemma_offset_step(s@, k);
        if j > k + 1 {
            lemma_offset_mono(s@, k + 1, j);
        }
        if j < k + 1 {
            lemma_offset_mono(s@, j, k);
        }
    }
    p
}

fn insert_char(text: &mut String, cursor: &mut usize, c: char)
    requires
        is_boundary(old(text)@, *old(cursor) as int),
    ensures
        (final(text)@, *final(cursor) as int, true) == edited(
            old(text)@,
            *old(cursor) as int,
            TextEdit::Insert(c),
        ),
        is_boundary(final(text)@, *final(cursor) as int),
{
    let ghost s = text@;
    let ghost k = char_index(s, *cursor as int);
    proof {
        lemma_boundary_is_offset(s, *cursor as int);
    }
    let (head, tail) = split_text(text.as_str(), *cursor);
    let mut line = head.to_owned();
    line.push(c);
    let at = str_bytes(line.as_str());
    line.append(tail);
    proof {
        assert(line@ =~= s.insert(k, c));
        assert(line@.take(k + 1) =~= s.take(k).push(c));
        lemma_offset_is_boundary(line@, k + 1);
    }
    *text = line;
    *cursor = at;
}

/// Removes the character at the boundary `at`.
fn remove_char(text: &mut String, at: usize)
    requires
        is_boundary(old(text)@, at as int),
        at < byte_len(old(text)@),
    ensures
        char_index(old(text)@, at as int) < old(text)@.len(),
        final(text)@ == old(text)@.remove(char_index(old(text)@, at as int)),
        is_boundary(final(text)@, at as int),
        char_index(final(text)@, at as int) == char_index(old(text)@, at as int),
{
    let ghost s = text@;
    let ghost k = char_index(s, at as int);
    proof {
        lemma_boundary_is_offset(s, at as int);
    }
    let next = next_boundary(text.as_str(), at);
    let head = split_text(text.as_str(), at).0;
    let tail = split_text(text.as_str(), next).1;
    let mut line = head.to_owned();
    line.append(tail);
    proof {
        assert(line@ =~= s.remove(k));
        assert(line@.take(k) =~= s.take(k));
        lemma_offset_is_boundary(line@, k);
    }
    *text = line;
}

/// Applies an edit to a line and its cursor, and says whether it touched the text.
pub fn apply_edit(text: &mut String, cursor: &mut usize, edit: TextEdit) -> (changed: bool)
    requires
        is_boundary(old(text)@, *old(cursor) as int),
    ensures
        (final(text)@, *final(cursor) as int, changed) == edited(
            old(text)@,
            *old(cursor) as int,
            edit,
        ),
        is_boundary(final(text)@, *final(cursor) as int),
        !changed ==> *final(text) == *old(text),
{
    let n = str_bytes(text.as_str());
    proof {
        lemma_boundary_ends(text@);
        lemma_boundary_ends(Seq::<char>::empty());
        lemma_boundary_is_offset(text@, *cursor as int);
    }
    match edit {
        TextEdit::Insert(c) => {
            insert_char(text, cursor, c);
            true
        },
        TextEdit::Backspace => {
            if *cursor > 0 {
                let p = previous_boundary(text.as_str(), *cursor);
                proof {
                    lemma_offset_mono(
                        text@,
                        char_index(text@, p as int),
                        char_index(text@, *cursor as int),
                    );
                }
                remove_char(text, p);
                *cursor = p;
                true
            } else {
                false
            }
        },
        TextEdit::Delete => {
            if *cursor < n {
                remove_char(text, *cursor);
                true
            } else {
                false
            }
        },
        TextEdit::Left => {
            if *cursor > 0 {
                *cursor = previous_boundary(text.as_str(), *cursor);
            }
            false
        },
        TextEdit::Right => {
            if *cursor < n {
                *cursor = next_boundary(text.as_str(), *cursor);
            }
            false
        },
        TextEdit::Home => {
            *cursor = 0;
            false
        },
        TextEdit::End => {
            *cursor = n;
            false
        },
        TextEdit::Clear => {
            *text = String::new();
            *cursor = 0;
            true
        },
    }
}

/// Typing a character and then backspace leaves the line as it was.
pub proof fn lemma_insert_then_backspace(s: Seq<char>, cursor: int, c: char)
    requires
        is_boundary(s, cursor),
    ensures
        ({
            let (t, at, _) = edited(s, cursor, TextEdit::Insert(c));
            let (u, back, _) = edited(t, at, TextEdit::Backspace);
            u == s && back == cursor
        }),
{
    let k = char_index(s, cursor);
    lemma_boundary_is_offset(s, cursor);
    let t = s.insert(k, c);
    lemma_offset_is_boundary(t, k + 1);
    lemma_offset_ends(t);
    lemma_offset_mono(t, 0, k + 1);
    assert(t.remove(k) =~= s);
    assert(t.take(k) =~= s.take(k));
}

/// Moving one character right and then left comes back to the same place.
pub proof fn lemma_right_then_left(s: Seq<char>, cursor: int)
    requires
        is_boundary(s, cursor),
        cursor < byte_len(s),
    ensures
        ({
            let (t, at, _) = edited(s, cursor, TextEdit::Right);
            let (u, back, _) = edited(t, at, TextEdit::Left);
            t == s && u == s && back == cursor && at > cursor
        }),
{
    let k = char_index(s, cursor);
    lemma_boundary_is_offset(s, cursor);
    lemma_offset_ends(s);
    lemma_offset_step(s, k);
    lemma_offset_is_boundary(s, k + 1);
    lemma_offset_mono(s, 0, k);
}

proof fn lemma_cursor_behind(before: Seq<char>, after: Seq<char>)
    ensures
        is_boundary(before + after, encode_utf8(before).len() as int),
        char_index(before + after, encode_utf8(before).len() as int) == before.len(),
        encode_utf8(before).len() <= encode_utf8(before + after).len(),
        encode_utf8(before).len() == 0 <==> before.len() == 0,
        encode_utf8(before).len() == encode_utf8(before + after).len() <==> after.len() == 0,
{
    let s = before + after;
    let n = before.len() as int;
    assert(s.take(n) =~= before);
    assert(s.take(0) =~= Seq::<char>::empty());
    assert(s.take(s.len() as int) =~= s);
    lemma_offset_is_boundary(s, n);
    lemma_offset_ends(s);
    if n > 0 {
        lemma_offset_mono(s, 0, n);
    }
    if after.len() > 0 {
        lemma_offset_mono(s, n, s.len() as int);
    } else {
        assert(s =~= before);
    }
}

/// Typing puts the character where the cursor is, and the cursor behind it.
pub proof fn lemma_typing(before: Seq<char>, after: Seq<char>, c: char)
    ensures
        edited(before + after, encode_utf8(before).len() as int, TextEdit::Insert(c)) == (
            before + seq![c] + after,
            encode_utf8(before + seq![c]).len() as int,
            true,
        ),
{
    lemma_cursor_behind(before, after);
    let t = (before + after).insert(before.len() as int, c);
    assert(t =~= before + seq![c] + after);
    assert(t.take(before.len() as int + 1) =~= before + seq![c]);
}

/// Backspace takes away the character before the cursor, and does nothing at the start.
pub proof fn lemma_backspace(before: Seq<char>, x: char, after: Seq<char>)
    ensures
        edited(
            before + seq![x] + after,
            encode_utf8(before + seq![x]).len() as int,
            TextEdit::Backspace,
        ) == (before + after, encode_utf8(before).len() as int, true),
        edited(after, 0, TextEdit::Backspace) == (after, 0int, false),
{
    let head = before + seq![x];
    lemma_cursor_behind(head, after);
    let s = head + after;
    assert(s.remove(before.len() as int) =~= before + after);
    assert(s.take(before.len() as int) =~= before);
}

/// Delete takes away the character behind the cursor, and does nothing at the end.
pub proof fn lemma_delete(before: Seq<char>, x: char, after: Seq<char>)
    ensures
        edited(
            before + seq![x] + after,
            encode_utf8(before).len() as int,
            TextEdit::Delete,
        ) == (before + after, encode_utf8(before).len() as int, true),
        edited(before, encode_utf8(before).len() as int, TextEdit::Delete) == (
            before,
            encode_utf8(before).len() as int,
            false,
        ),
{
    let tail = seq![x] + after;
    lemma_cursor_behind(before, tail);
    let s = before + seq![x] + after;
    assert(s =~= before + tail);
    assert(s.remove(before.len() as int) =~= before + after);
}

/// The arrows move the cursor over one character and change no text.
pub proof fn lemma_arrows(before: Seq<char>, x: char, after: Seq<char>)
    ensures
        ({
            let s = before + seq![x] + after;
            let left = encode_utf8(before).len() as int;
            let right = encode_utf8(before + seq![x]).len() as int;
            &&& edited(s, right, TextEdit::Left) == (s, left, false)
            &&& edited(s, left, TextEdit::Right) == (s, right, false)
            &&& edited(s, 0, TextEdit::Left) == (s, 0int, false)
            &&& edited(s, encode_utf8(s).len() as int, TextEdit::Right) == (
                s,
                encode_utf8(s).len() as int,
                false,
            )
        }),
{
    let tail = seq![x] + after;
    let head = before + seq![x];
    let s = before + seq![x] + after;
    assert(s =~= before + tail);
    assert(s =~= head + after);
    lemma_cursor_behind(before, tail);
    lemma_cursor_behind(head, after);
    assert(s.take(before.len() as int) =~= before);
    assert(s.take(before.len() as int + 1) =~= head);
}

/// Home and End bring the cursor before and behind the whole text, and clearing leaves no text.
pub proof fn lemma_ends_of_line(s: Seq<char>, cursor: int)
    ensures
        edited(s, cursor, TextEdit::Home) == (s, 0int, false),
        edited(s, cursor, TextEdit::End) == (s, encode_utf8(s).len() as int, false),
        edited(s, cursor, TextEdit::Clear) == (Seq::<char>::empty(), 0int, true),
{
}

/// What is trimmed away is white space, and none is left at the ends.
pub proof fn lemma_trimmed_is_core(s: Seq<char>)
    ensures
        exists|a: int, b: int|
            0 <= a <= b <= s.len() && trimmed(s) == #[trigger] s.subrange(a, b) && (forall|i: int|
                0 <= i < s.len() && !(a <= i < b) ==> is_white_space(#[trigger] s[i])),
        trimmed(s).len() > 0 ==> !is_white_space(trimmed(s).first()) && !is_white_space(
            trimmed(s).last(),
        ),
{
    lemma_start_is_suffix(s);
    let t = trimmed_start(s);
    lemma_end_is_prefix(t);
    let a = s.len() - t.len();
    let b = a + trimmed_end(t).len();
    assert(trimmed(s) =~= s.subrange(a, b));
    assert forall|i: int| 0 <= i < s.len() && !(a <= i < b) implies is_white_space(
        #[trigger] s[i],
    ) by {
        if i >= b {
            assert(t[i - a] == s[i]);
        }
    }
    if trimmed(s).len() > 0 {
        assert(trimmed(s).first() == t.first());
    }
}

proof fn lemma_start_is_suffix(s: Seq<char>)
    ensures
        trimmed_start(s).len() <= s.len(),
        trimmed_start(s) == s.skip(s.len() - trimmed_start(s).len()),
        forall|i: int|
            0 <= i < s.len() - trimmed_start(s).len() ==> is_white_space(#[trigger] s[i]),
        trimmed_start(s).len() > 0 ==> !is_white_space(trimmed_start(s).first()),
    decreases s.len(),
{
    if s.len() > 0 && is_white_space(s.first()) {
        let rest = s.drop_first();
        lemma_start_is_suffix(rest);
        assert(trimmed_start(s) =~= s.skip(s.len() - trimmed_start(s).len()));
        assert forall|i: int|
            0 <= i < s.len() - trimmed_start(s).len() implies is_white_space(#[trigger] s[i]) by {
            if i > 0 {
                assert(s[i] == rest[i - 1]);
            }
        }
    } else {
        assert(s =~= s.skip(0));
    }
}

proof fn lemma_end_is_prefix(s: Seq<char>)
    ensures
        trimmed_end(s).len() <= s.len(),
        trimmed_end(s) == s.take(trimmed_end(s).len() as int),
        forall|i: int| trimmed_end(s).len() <= i < s.len() ==> is_white_space(#[trigger] s[i]),
        trimmed_end(s).len() > 0 ==> !is_white_space(trimmed_end(s).last()),
    decreases s.len(),
{
    if s.len() > 0 && is_white_space(s.last()) {
        let rest = s.drop_last();
        lemma_end_is_prefix(rest);
        assert(trimmed_end(s) =~= s.take(trimmed_end(s).len() as int));
        assert forall|i: int| trimmed_end(s).len() <= i < s.len() implies is_white_space(
            #[trigger] s[i],
        ) by {
            if i < s.len() - 1 {
                assert(s[i] == rest[i]);
            }
        }
    } else {
        assert(s =~= s.take(s.len() as int));
    }
}

/// Trimming what is trimmed changes nothing.
pub proof fn lemma_trimmed_twice(s: Seq<char>)
    ensures
        trimmed(trimmed(s)) == trimmed(s),
{
    lemma_trimmed_is_core(s);
}

} // verus!
