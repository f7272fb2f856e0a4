//! Base64 for the terminal clipboard, and character boundaries.

use crate::text::{
    boundary_after, boundary_before, byte_len, is_boundary, lemma_boundary_ends, str_bytes,
};
use vstd::prelude::*;
use vstd::string::{StringExecFns, StringSliceAdditionalSpecFns};
use vstd::utf8::encode_utf8;

verus! {

/// The base64 digit with value `v`.
pub open spec fn base64_digit(v: int) -> char {
    if v < 26 {
        ('A' as int + v) as char
    } else if v < 52 {
        ('a' as int + (v - 26)) as char
    } else if v < 62 {
        ('0' as int + (v - 52)) as char
    } else if v == 62 {
        '+'
    } else {
        '/'
    }
}

/// The four digits, six bits each, of a group of three bytes.
pub open spec fn base64_group(n: int) -> Seq<char> {
    seq![
        base64_digit(n / 262144),
        base64_digit(n / 4096 % 64),
        base64_digit(n / 64 % 64),
        base64_digit(n % 64),
    ]
}

/// The base64 text of the bytes, padded with `=` to whole groups.
pub open spec fn base64_text(data: Seq<u8>) -> Seq<char>
    decreases data.len(),
{
    if data.len() == 0 {
        seq![]
    } else if data.len() == 1 {
        base64_group(data[0] * 65536).take(2) + seq!['=', '=']
    } else if data.len() == 2 {
        base64_group(data[0] * 65536 + data[1] * 256).take(3) + seq!['=']
    } else {
        base64_group(data[0] * 65536 + data[1] * 256 + data[2]) + base64_text(data.skip(3))
    }
}

fn base64_char(v: u32) -> (c: char)
    requires
        v < 64,
    ensures
        c == base64_digit(v as int),
{
    if v < 26 {
        (65 + v) as u8 as char
    } else if v < 52 {
        (97 + (v - 26)) as u8 as char
    } else if v < 62 {
        (48 + (v - 52)) as u8 as char
    } else if v == 62 {
        '+'
    } else {
        '/'
    }
}

/// Encodes bytes in base64, with padding.
pub fn base64_encode(data: &[u8]) -> (out: String)
    ensures
        out@ == base64_text(data@),
{
    let mut out = String::new();
    let mut i: usize = 0;
    assert(data@.skip(0) =~= data@);
    while i < data.len()
        invariant
            0 <= i <= data@.len(),
            base64_text(data@) == out@ + base64_text(data@.skip(i as int)),
        decreases data@.len() - i,
    {
        let ghost before = out@;
        let ghost rest = data@.skip(i as int);
        let left = data.len() - i;
        let b0 = data[i] as u32;
        let b1 = if left > 1 { data[i + 1] as u32 } else { 0 };
        let b2 = if left > 2 { data[i + 2] as u32 } else { 0 };
        let triple: u32 = b0 * 65536 + b1 * 256 + b2;
        out.push(base64_char(triple / 262144));
        out.push(base64_char(triple / 4096 % 64));
        if left > 1 {
            out.push(base64_char(triple / 64 % 64));
        } else {
            out.push('=');
        }
        if left > 2 {
            out.push(base64_char(triple % 64));
            i = i + 3;
            assert(rest.skip(3) =~= data@.skip(i as int));
        } else {
            out.push('=');
            i = data.len();
            assert(data@.skip(i as int) =~= Seq::<u8>::empty());
        }
        assert(out@ =~= before + base64_text(rest).take(4));
        assert(base64_text(rest) =~= base64_text(rest).take(4) + base64_text(data@.skip(i as int)));
        assert(base64_text(data@) =~= out@ + base64_text(data@.skip(i as int)));
    }
    assert(data@.skip(i as int) =~= Seq::<u8>::empty());
    assert(out@ + base64_text(data@.skip(i as int)) =~= out@);
    out
}

/// The value of a base64 digit.
pub open spec fn base64_value(c: char) -> int {
    if 'A' <= c <= 'Z' {
        c as int - 'A' as int
    } else if 'a' <= c <= 'z' {
        c as int - 'a' as int + 26
    } else if '0' <= c <= '9' {
        c as int - '0' as int + 52
    } else if c == '+' {
        62
    } else {
        63
    }
}

/// The bytes that a padded base64 text stands for.
pub open spec fn base64_bytes(t: Seq<char>) -> Seq<u8>
    decreases t.len(),
{
    if t.len() < 4 {
        seq![]
    } else {
        let high = base64_value(t[0]) * 4 + base64_value(t[1]) / 16;
        let middle = base64_value(t[1]) % 16 * 16 + base64_value(t[2]) / 4;
        let low = base64_value(t[2]) % 4 * 64 + base64_value(t[3]);
        if t[2] == '=' {
            seq![high as u8]
        } else if t[3] == '=' {
            seq![high as u8, middle as u8]
        } else {
            seq![high as u8, middle as u8, low as u8] + base64_bytes(t.skip(4))
        }
    }
}

proof fn lemma_base64_digit_value(v: int)
    requires
        0 <= v < 64,
    ensures
        base64_value(base64_digit(v)) == v,
        base64_digit(v) != '=',
{
}

proof fn lemma_split_sextets(v0: int, v1: int, v2: int, v3: int)
    requires
        0 <= v0 < 64,
        0 <= v1 < 64,
        0 <= v2 < 64,
        0 <= v3 < 64,
    ensures
        ({
            let n = 262144 * v0 + 4096 * v1 + 64 * v2 + v3;
            n / 262144 == v0 && n / 4096 % 64 == v1 && n / 64 % 64 == v2 && n % 64 == v3
        }),
{
    let n = 262144 * v0 + 4096 * v1 + 64 * v2 + v3;
    assert(n / 64 == 4096 * v0 + 64 * v1 + v2) by (nonlinear_arith)
        requires
            n == 64 * (4096 * v0 + 64 * v1 + v2) + v3,
            0 <= v3 < 64,
    ;
    assert(n / 4096 == 64 * v0 + v1) by (nonlinear_arith)
        requires
            n == 4096 * (64 * v0 + v1) + (64 * v2 + v3),
            0 <= 64 * v2 + v3 < 4096,
    ;
    assert(n / 262144 == v0) by (nonlinear_arith)
        requires
            n == 262144 * v0 + (4096 * v1 + 64 * v2 + v3),
            0 <= 4096 * v1 + 64 * v2 + v3 < 262144,
    ;
}

proof fn lemma_sextets(b0: int, b1: int, b2: int)
    requires
        0 <= b0 < 256,
        0 <= b1 < 256,
        0 <= b2 < 256,
    ensures
        ({
            let n = b0 * 65536 + b1 * 256 + b2;
            &&& n / 262144 == b0 / 4
            &&& n / 4096 % 64 == b0 % 4 * 16 + b1 / 16
            &&& n / 64 % 64 == b1 % 16 * 4 + b2 / 64
            &&& n % 64 == b2 % 64
        }),
{
    lemma_split_sextets(b0 / 4, b0 % 4 * 16 + b1 / 16, b1 % 16 * 4 + b2 / 64, b2 % 64);
}

/// Base64 loses nothing: the bytes can be read back from the text.
pub proof fn lemma_base64_round_trip(data: Seq<u8>)
    ensures
        base64_bytes(base64_text(data)) == data,
    decreases data.len(),
{
    let t = base64_text(data);
    if data.len() > 0 {
        let b0 = data[0] as int;
        let b1: int = if data.len() > 1 { data[1] as int } else { 0 };
        let b2: int = if data.len() > 2 { data[2] as int } else { 0 };
        let n = b0 * 65536 + b1 * 256 + b2;
        lemma_sextets(b0, b1, b2);
        lemma_base64_digit_value(n / 262144);
        lemma_base64_digit_value(n / 4096 % 64);
        lemma_base64_digit_value(n / 64 % 64);
        lemma_base64_digit_value(n % 64);
        if data.len() > 2 {
            lemma_base64_round_trip(data.skip(3));
            assert(t.skip(4) =~= base64_text(data.skip(3)));
            assert(seq![b0 as u8, b1 as u8, b2 as u8] + data.skip(3) =~= data);
        }
    }
    assert(base64_bytes(t) =~= data);
}

/// The terminal control sequence (OSC 52) that puts `text` on the clipboard: its UTF-8 bytes in
/// base64.
pub open spec fn osc52_sequence(text: Seq<char>) -> Seq<char> {
    seq!['\u{1b}', ']', '5', '2', ';', 'c', ';'] + base64_text(encode_utf8(text)) + seq!['\u{7}']
}

/// Gives the terminal control sequence that puts `text` on the clipboard.
pub fn osc52_copy(text: &str) -> (sequence: String)
    ensures
        sequence@ == osc52_sequence(text@),
{
    let b64 = base64_encode(text.as_bytes());
    let mut out = String::new();
    proof {
        reveal_strlit("]52;c;");
    }
    out.push('\u{1b}');
    out.append("]52;c;");
    out.append(b64.as_str());
    out.push('\u{7}');
    assert(out@ =~= seq!['\u{1b}', ']', '5', '2', ';', 'c', ';'] + b64@ + seq!['\u{7}']);
    out
}

/// The last boundary of `s` at or before byte `pos`, or its end if `pos` lies past it.
pub fn char_boundary_left(s: &str, pos: usize) -> (p: usize)
    ensures
        p == boundary_before(s@, pos as int),
        is_boundary(s@, p as int),
        p <= pos,
        p <= byte_len(s@),
        forall|q: int| p < q <= pos && q <= byte_len(s@) ==> !is_boundary(s@, q),
{
    let n = str_bytes(s);
    let mut p: usize = if pos < n { pos } else { n };
    proof {
        lemma_boundary_ends(s@);
    }
    while !s.is_char_boundary(p)
        invariant
            p <= pos,
            p <= byte_len(s@),
            is_boundary(s@, 0),
            is_boundary(s@, byte_len(s@) as int),
            boundary_before(s@, pos as int) == boundary_before(s@, p as int),
            forall|q: int| p < q <= pos && q <= byte_len(s@) ==> !is_boundary(s@, q),
        decreases p,
    {
        p = p - 1;
    }
    p
}

/// The first boundary of `s` at or after byte `pos`, or its end if `pos` lies past it.
pub fn char_boundary_right(s: &str, pos: usize) -> (p: usize)
    ensures
        p == boundary_after(s@, pos as int),
        is_boundary(s@, p as int),
        p <= byte_len(s@),
        pos <= byte_len(s@) ==> pos <= p,
        pos > byte_len(s@) ==> p == byte_len(s@),
        forall|q: int| pos <= q < p ==> !is_boundary(s@, q),
{
    let n = str_bytes(s);
    let mut p: usize = if pos < n { pos } else { n };
    proof {
        lemma_boundary_ends(s@);
    }
    while p < n && !s.is_char_boundary(p)
        invariant
            p <= n == byte_len(s@),
            is_boundary(s@, n as int),
            boundary_after(s@, pos as int) == boundary_after(s@, p as int),
            pos <= n ==> pos <= p,
            pos > n ==> p == n,
            forall|q: int| pos <= q < p ==> !is_boundary(s@, q),
        decreases n - p,
    {
        p = p + 1;
    }
    p
}

/// The digits are the letters, capitals first, the decimal digits, and the two signs.
pub proof fn lemma_base64_alphabet(v: int)
    requires
        0 <= v < 64,
    ensures
        base64_digit(v) == "ABCDEFGHIJKLMNOPQRSTUVWXYZabcdefghijklmnopqrstuvwxyz0123456789+/"@[v],
{
    reveal_strlit("ABCDEFGHIJKLMNOPQRSTUVWXYZabcdefghijklmnopqrstuvwxyz0123456789+/");
}

/// Base64 has four characters for three bytes, the last ones filled up with `=`, and every other
/// character is one of the digits.
pub proof fn lemma_base64_shape(data: Seq<u8>)
    ensures
        base64_text(data).len() == (data.len() + 2) / 3 * 4,
        forall|i: int|
            0 <= i < base64_text(data).len() ==> #[trigger] base64_text(data)[i] == '=' || exists|
                v: int,
            |
                0 <= v < 64 && base64_text(data)[i] == base64_digit(v),
    decreases data.len(),
{
    let t = base64_text(data);
    if data.len() > 0 {
        let b0 = data[0] as int;
        let b1: int = if data.len() > 1 { data[1] as int } else { 0 };
        let b2: int = if data.len() > 2 { data[2] as int } else { 0 };
        let n = b0 * 65536 + b1 * 256 + b2;
        lemma_sextets(b0, b1, b2);
        let g = base64_group(n);
        assert(g[0] == base64_digit(n / 262144));
        assert(g[1] == base64_digit(n / 4096 % 64));
        assert(g[2] == base64_digit(n / 64 % 64));
        assert(g[3] == base64_digit(n % 64));
        let rest = if data.len() > 3 { data.skip(3) } else { seq![] };
        lemma_base64_shape(rest);
        if data.len() > 2 {
            assert(rest =~= data.skip(3));
        }
        assert forall|i: int| 0 <= i < t.len() implies #[trigger] t[i] == '=' || exists|v: int|
            0 <= v < 64 && t[i] == base64_digit(v) by {
            if i >= 4 {
                assert(t[i] == base64_text(rest)[i - 4]);
            }
        }
    }
}

/// A base64 digit has the value of its place in the alphabet.
pub proof fn lemma_base64_values(v: int)
    requires
        0 <= v < 64,
    ensures
        base64_value(
            "ABCDEFGHIJKLMNOPQRSTUVWXYZabcdefghijklmnopqrstuvwxyz0123456789+/"@[v],
        ) == v,
{
    reveal_strlit("ABCDEFGHIJKLMNOPQRSTUVWXYZabcdefghijklmnopqrstuvwxyz0123456789+/");
}

/// The control sequence for the clipboard stands between its introduction, with the command 52 for
/// the clipboard `c`, and a bell; and in between stands the text: its UTF-8 bytes can be read back
/// from it.
pub proof fn lemma_clipboard_holds_text(text: Seq<char>)
    ensures
        ({
            let q = osc52_sequence(text);
            &&& q.len() >= 8
            &&& q.take(7) == seq!['\u{1b}', ']', '5', '2', ';', 'c', ';']
            &&& q.last() == '\u{7}'
            &&& base64_bytes(q.subrange(7, q.len() - 1)) == encode_utf8(text)
        }),
{
    let q = osc52_sequence(text);
    let b = base64_text(encode_utf8(text));
    assert(q.subrange(7, q.len() - 1) =~= b);
    assert(q.take(7) =~= seq!['\u{1b}', ']', '5', '2', ';', 'c', ';']);
    lemma_base64_round_trip(encode_utf8(text));
}

} // verus!
