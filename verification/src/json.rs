//! The JSON wire format of notes: the record shape
//! `{"id":N,"title":"..","text":".."}`, the creation payload shape
//! `{"title":"..","text":".."}`, and the array of records. Encoding is
//! canonical: no whitespace, fields in this order, control characters
//! escaped. The record decoder accepts exactly the canonical texts, so
//! that decoding an encoded record gives the record back. The payload
//! decoder accepts standard JSON for the two-field object: insignificant
//! whitespace, either member order, and the JSON string escapes
//! (`\uXXXX` for Unicode scalar values; surrogate pairs are not joined).

use vstd::prelude::*;

use crate::models::{CreatorView, NoteCreator, NoteSerializer, NoteView};
use crate::service::views_of;
use crate::text::{
    all_digits, int_chars, is_digit, is_digit_char, spec_parse_i32, udigits,
};

verus! {

/// True for JSON's insignificant whitespace characters.
pub open spec fn is_ws(c: char) -> bool {
    c == ' ' || c == '\t' || c == '\n' || c == '\r'
}

/// Hexadecimal digit character of a value in 0..16, lower case.
pub open spec fn hex_digit(d: int) -> char {
    if d == 0 {
        '0'
    } else if d == 1 {
        '1'
    } else if d == 2 {
        '2'
    } else if d == 3 {
        '3'
    } else if d == 4 {
        '4'
    } else if d == 5 {
        '5'
    } else if d == 6 {
        '6'
    } else if d == 7 {
        '7'
    } else if d == 8 {
        '8'
    } else if d == 9 {
        '9'
    } else if d == 10 {
        'a'
    } else if d == 11 {
        'b'
    } else if d == 12 {
        'c'
    } else if d == 13 {
        'd'
    } else if d == 14 {
        'e'
    } else {
        'f'
    }
}

/// True for hexadecimal digit characters of either case.
pub open spec fn is_hex(c: char) -> bool {
    crate::text::is_digit(c) || c == 'a' || c == 'b' || c == 'c' || c == 'd' || c == 'e'
        || c == 'f' || c == 'A' || c == 'B' || c == 'C' || c == 'D' || c == 'E' || c == 'F'
}

/// Value of a hexadecimal digit character.
pub open spec fn hex_val(c: char) -> int {
    if c == 'a' || c == 'A' {
        10
    } else if c == 'b' || c == 'B' {
        11
    } else if c == 'c' || c == 'C' {
        12
    } else if c == 'd' || c == 'D' {
        13
    } else if c == 'e' || c == 'E' {
        14
    } else if c == 'f' || c == 'F' {
        15
    } else {
        crate::text::digit_val(c)
    }
}

/// The escape of one character inside a JSON string literal: the short
/// escapes for quote, backslash and the named control characters, a
/// `\u00XX` escape for every other control character, and the character
/// itself otherwise, so that every encoded string is valid JSON.
pub open spec fn esc_char(c: char) -> Seq<char> {
    if c == '"' {
        seq!['\\', '"']
    } else if c == '\\' {
        seq!['\\', '\\']
    } else if c == '\n' {
        seq!['\\', 'n']
    } else if c == '\r' {
        seq!['\\', 'r']
    } else if c == '\t' {
        seq!['\\', 't']
    } else if c == '\u{8}' {
        seq!['\\', 'b']
    } else if c == '\u{c}' {
        seq!['\\', 'f']
    } else if (c as u32) < 0x20 {
        seq!['\\', 'u', '0', '0', hex_digit((c as u32) as int / 16), hex_digit((c as u32) as int % 16)]
    } else {
        seq![c]
    }
}

/// The character a one-letter escape code stands for.
pub open spec fn unescape_char(c: char) -> Option<char> {
    if c == '"' {
        Some('"')
    } else if c == '\\' {
        Some('\\')
    } else if c == '/' {
        Some('/')
    } else if c == 'n' {
        Some('\n')
    } else if c == 'r' {
        Some('\r')
    } else if c == 't' {
        Some('\t')
    } else if c == 'b' {
        Some('\u{8}')
    } else if c == 'f' {
        Some('\u{c}')
    } else {
        None
    }
}

/// True for a code that is a Unicode scalar value expressible in four
/// hexadecimal digits (not a surrogate half).
pub open spec fn bmp_scalar(code: int) -> bool {
    0 <= code <= 0xFFFF && !(0xD800 <= code < 0xE000)
}

/// The escaped body of a JSON string literal.
pub open spec fn esc(s: Seq<char>) -> Seq<char>
    decreases s.len(),
{
    if s.len() == 0 {
        Seq::empty()
    } else {
        esc_char(s[0]) + esc(s.skip(1))
    }
}

/// Escaping distributes over concatenation.
pub proof fn lemma_esc_append(a: Seq<char>, b: Seq<char>)
    ensures
        esc(a + b) == esc(a) + esc(b),
    decreases a.len(),
{
    if a.len() == 0 {
        assert(a + b =~= b);
        assert(esc(a) + esc(b) =~= esc(b));
    } else {
        lemma_esc_append(a.skip(1), b);
        assert((a + b).skip(1) =~= a.skip(1) + b);
        assert((a + b)[0] == a[0]);
        assert(esc_char(a[0]) + (esc(a.skip(1)) + esc(b)) =~= (esc_char(a[0]) + esc(a.skip(1)))
            + esc(b));
    }
}

/// Law: escaped text never holds a raw control character, so a body
/// built by escaping arbitrary text (a record field, a parse-error
/// detail) is a valid JSON string literal for every input.
pub proof fn lemma_esc_no_controls(s: Seq<char>)
    ensures
        forall|i: int| 0 <= i < esc(s).len() ==> ((#[trigger] esc(s)[i]) as u32) >= 0x20,
    decreases s.len(),
{
    if s.len() > 0 {
        lemma_esc_no_controls(s.skip(1));
        let e = esc_char(s[0]);
        assert forall|i: int| 0 <= i < esc(s).len() implies ((#[trigger] esc(s)[i]) as u32)
            >= 0x20 by {
            if i < e.len() {
                assert(esc(s)[i] == e[i]);
            } else {
                assert(esc(s)[i] == esc(s.skip(1))[i - e.len()]);
            }
        }
    }
}

/// Scans a JSON string body up to its closing quote, undoing escapes;
/// yields the content and what follows the quote. Nothing is yielded on
/// an unterminated literal or an unknown escape.
pub open spec fn spec_scan_string(s: Seq<char>) -> Option<(Seq<char>, Seq<char>)>
    decreases s.len(),
{
    if s.len() == 0 {
        None
    } else if s[0] == '"' {
        Some((Seq::empty(), s.skip(1)))
    } else if s[0] == '\\' {
        if s.len() < 2 {
            None
        } else if s[1] == 'u' {
            if s.len() < 6 || !(is_hex(s[2]) && is_hex(s[3]) && is_hex(s[4]) && is_hex(s[5])) {
                None
            } else {
                let code = hex_val(s[2]) * 4096 + hex_val(s[3]) * 256 + hex_val(s[4]) * 16
                    + hex_val(s[5]);
                if !bmp_scalar(code) {
                    None
                } else {
                    match spec_scan_string(s.skip(6)) {
                        Some(p) => Some((seq![((code as u32) as char)] + p.0, p.1)),
                        None => None,
                    }
                }
            }
        } else {
            match unescape_char(s[1]) {
                Some(c) => match spec_scan_string(s.skip(2)) {
                    Some(p) => Some((seq![c] + p.0, p.1)),
                    None => None,
                },
                None => None,
            }
        }
    } else {
        match spec_scan_string(s.skip(1)) {
            Some(p) => Some((seq![s[0]] + p.0, p.1)),
            None => None,
        }
    }
}

/// Scanning an escaped body followed by a quote yields the body back and
/// stops exactly after the quote.
pub proof fn lemma_scan_escaped(t: Seq<char>, tail: Seq<char>)
    ensures
        spec_scan_string(esc(t) + seq!['"'] + tail) == Some((t, tail)),
    decreases t.len(),
{
    let s = esc(t) + seq!['"'] + tail;
    if t.len() == 0 {
        assert(esc(t) =~= Seq::<char>::empty());
        assert(s =~= seq!['"'] + tail);
        assert(s[0] == '"');
        assert(s.skip(1) =~= tail);
        assert(t =~= Seq::<char>::empty());
    } else {
        let c = t[0];
        let e = esc_char(c);
        lemma_scan_escaped(t.skip(1), tail);
        let rest = esc(t.skip(1)) + seq!['"'] + tail;
        assert(esc(t) == e + esc(t.skip(1)));
        assert(seq![c] + t.skip(1) =~= t);
        if c == '"' || c == '\\' || c == '\n' || c == '\r' || c == '\t' || c == '\u{8}'
            || c == '\u{c}' {
            assert(e.len() == 2 && e[0] == '\\');
            assert(s[0] == '\\');
            assert(s.len() >= 2);
            assert(s[1] == e[1]);
            assert(e[1] != 'u');
            assert(unescape_char(e[1]) == Some(c));
            assert(s.skip(2) =~= rest);
        } else if (c as u32) < 0x20 {
            let v = (c as u32) as int;
            assert(e =~= seq!['\\', 'u', '0', '0', hex_digit(v / 16), hex_digit(v % 16)]);
            assert(s[0] == '\\');
            assert(s.len() >= 6);
            assert(s[1] == 'u');
            assert(s[2] == '0' && s[3] == '0');
            assert(s[4] == hex_digit(v / 16) && s[5] == hex_digit(v % 16));
            assert(0 <= v / 16 < 16 && 0 <= v % 16 < 16);
            assert(is_hex(s[2]) && is_hex(s[3]) && is_hex(s[4]) && is_hex(s[5]));
            assert(hex_val(hex_digit(v / 16)) == v / 16);
            assert(hex_val(hex_digit(v % 16)) == v % 16);
            vstd::arithmetic::div_mod::lemma_fundamental_div_mod(v, 16);
            let code = hex_val(s[2]) * 4096 + hex_val(s[3]) * 256 + hex_val(s[4]) * 16
                + hex_val(s[5]);
            assert(code == v);
            assert(bmp_scalar(code));
            vstd::utf8::char_u32_cast(c, c as u32);
            assert(((code as u32) as char) == c);
            assert(s.skip(6) =~= rest);
        } else {
            assert(e =~= seq![c]);
            assert(s[0] == c);
            assert(c != '"' && c != '\\');
            assert(s.skip(1) =~= rest);
        }
    }
}

/// The opening of a note record, up to the id value.
pub open spec fn tok_id() -> Seq<char> {
    seq!['{', '"', 'i', 'd', '"', ':']
}

/// Between the id value and the title string of a note record.
pub open spec fn tok_title() -> Seq<char> {
    seq![',', '"', 't', 'i', 't', 'l', 'e', '"', ':', '"']
}

/// Between the title string and the text string.
pub open spec fn tok_text() -> Seq<char> {
    seq![',', '"', 't', 'e', 'x', 't', '"', ':', '"']
}

/// The JSON record of a note.
pub open spec fn enc_note(v: NoteView) -> Seq<char> {
    tok_id() + int_chars(v.id) + tok_title() + esc(v.title) + seq!['"'] + tok_text() + esc(v.text)
        + seq!['"', '}']
}

/// The items of a JSON array of note records, comma separated.
pub open spec fn enc_items(vs: Seq<NoteView>) -> Seq<char>
    decreases vs.len(),
{
    if vs.len() == 0 {
        Seq::empty()
    } else if vs.len() == 1 {
        enc_note(vs[0])
    } else {
        enc_note(vs[0]) + seq![','] + enc_items(vs.skip(1))
    }
}

/// The JSON array of note records.
pub open spec fn enc_note_list(vs: Seq<NoteView>) -> Seq<char> {
    seq!['['] + enc_items(vs) + seq![']']
}

/// Appending one record to the array body.
pub proof fn lemma_enc_items_snoc(a: Seq<NoteView>, v: NoteView)
    ensures
        enc_items(a.push(v)) == if a.len() == 0 {
            enc_note(v)
        } else {
            enc_items(a) + seq![','] + enc_items(seq![v])
        },
    decreases a.len(),
{
    let w = a.push(v);
    assert(enc_items(seq![v]) == enc_note(v));
    if a.len() == 0 {
        assert(w.len() == 1);
        assert(w[0] == v);
    } else {
        lemma_enc_items_snoc(a.skip(1), v);
        assert(w.skip(1) =~= a.skip(1).push(v));
        assert(w[0] == a[0]);
        if a.len() == 1 {
            assert(a.skip(1).len() == 0);
            assert(enc_items(a) == enc_note(a[0]));
        } else {
            assert(enc_note(a[0]) + seq![','] + (enc_items(a.skip(1)) + seq![','] + enc_note(v))
                =~= (enc_note(a[0]) + seq![','] + enc_items(a.skip(1))) + seq![','] + enc_note(
                v,
            ));
        }
    }
}

/// The rest of the input after an expected literal token, when the input
/// starts with that token.
pub open spec fn expect(s: Seq<char>, tok: Seq<char>) -> Option<Seq<char>> {
    if s.len() >= tok.len() && s.subrange(0, tok.len() as int) == tok {
        Some(s.skip(tok.len() as int))
    } else {
        None
    }
}

/// An expected token at the front of the input is consumed exactly.
pub proof fn lemma_expect_prefix(tok: Seq<char>, r: Seq<char>)
    ensures
        expect(tok + r, tok) == Some(r),
{
    assert((tok + r).subrange(0, tok.len() as int) =~= tok);
    assert((tok + r).skip(tok.len() as int) =~= r);
}

/// Length of a leading integer token: an optional sign, then the digits.
pub open spec fn int_token_len(s: Seq<char>) -> int {
    if s.len() > 0 && (s[0] == '-' || s[0] == '+') {
        1 + digit_run_len(s.skip(1))
    } else {
        digit_run_len(s)
    }
}

/// Length of the leading run of digit characters.
pub open spec fn digit_run_len(s: Seq<char>) -> int
    decreases s.len(),
{
    if s.len() > 0 && is_digit(s[0]) {
        1 + digit_run_len(s.skip(1))
    } else {
        0
    }
}

/// The digit run of digits followed by a non-digit is exactly the digits.
pub proof fn lemma_digit_run(d: Seq<char>, r: Seq<char>)
    requires
        all_digits(d),
        r.len() == 0 || !is_digit(r[0]),
    ensures
        digit_run_len(d + r) == d.len(),
    decreases d.len(),
{
    if d.len() == 0 {
        assert(d + r =~= r);
    } else {
        assert(forall|j: int| 0 <= j < d.skip(1).len() ==> #[trigger] d.skip(1)[j] == d[j + 1]);
        lemma_digit_run(d.skip(1), r);
        assert((d + r).skip(1) =~= d.skip(1) + r);
        assert((d + r)[0] == d[0]);
        assert(is_digit(d[0]));
    }
}

/// A digit run never runs past the end, and counts exactly the leading
/// digits.
pub proof fn lemma_digit_run_exact(s: Seq<char>, k: int)
    requires
        0 <= k <= s.len(),
        forall|j: int| 0 <= j < k ==> is_digit(#[trigger] s[j]),
        k == s.len() || !is_digit(s[k]),
    ensures
        digit_run_len(s) == k,
    decreases s.len(),
{
    if k == 0 {
        if s.len() > 0 {
            assert(!is_digit(s[0]));
        }
    } else {
        assert(is_digit(s[0]));
        assert(forall|j: int| 0 <= j < s.skip(1).len() ==> #[trigger] s.skip(1)[j] == s[j + 1]);
        lemma_digit_run_exact(s.skip(1), k - 1);
    }
}

/// What a JSON note record denotes: exactly the canonical encodings.
pub open spec fn spec_dec_note(s: Seq<char>) -> Option<NoteView> {
    match expect(s, tok_id()) {
        None => None,
        Some(s1) => {
            let tl = int_token_len(s1);
            match spec_parse_i32(s1.subrange(0, tl)) {
                None => None,
                Some(v) => if s1.subrange(0, tl) != int_chars(v) {
                    // only the canonical rendering: no '+', no leading zeros
                    None
                } else {
                    match expect(s1.skip(tl), tok_title()) {
                    None => None,
                    Some(s2) => match spec_scan_string(s2) {
                        None => None,
                        Some(p) => match expect(p.1, tok_text()) {
                            None => None,
                            Some(s3) => match spec_scan_string(s3) {
                                None => None,
                                Some(q) => if q.1 == seq!['}'] {
                                    Some(NoteView { id: v, title: p.0, text: q.0 })
                                } else {
                                    None
                                },
                            },
                        },
                    },
                    }
                },
            }
        },
    }
}

/// Length of the leading run of insignificant whitespace.
pub open spec fn ws_len(s: Seq<char>) -> int
    decreases s.len(),
{
    if s.len() > 0 && is_ws(s[0]) {
        1 + ws_len(s.skip(1))
    } else {
        0
    }
}

/// The input after its leading insignificant whitespace.
pub open spec fn skip_ws(s: Seq<char>) -> Seq<char> {
    s.skip(ws_len(s))
}

/// The whitespace run counts exactly the leading whitespace characters.
pub proof fn lemma_ws_run_exact(s: Seq<char>, k: int)
    requires
        0 <= k <= s.len(),
        forall|j: int| 0 <= j < k ==> is_ws(#[trigger] s[j]),
        k == s.len() || !is_ws(s[k]),
    ensures
        ws_len(s) == k,
    decreases s.len(),
{
    if k == 0 {
        if s.len() > 0 {
            assert(!is_ws(s[0]));
        }
    } else {
        assert(is_ws(s[0]));
        assert(forall|j: int| 0 <= j < s.skip(1).len() ==> #[trigger] s.skip(1)[j] == s[j + 1]);
        lemma_ws_run_exact(s.skip(1), k - 1);
    }
}

/// One `"name": "value"` member, the input beginning at the name's
/// opening quote: the decoded name, the decoded value, and what follows
/// the value's closing quote.
pub open spec fn spec_member(s: Seq<char>) -> Option<(Seq<char>, Seq<char>, Seq<char>)> {
    if s.len() == 0 || s[0] != '"' {
        None
    } else {
        match spec_scan_string(s.skip(1)) {
            None => None,
            Some(p) => {
                let s1 = skip_ws(p.1);
                if s1.len() == 0 || s1[0] != ':' {
                    None
                } else {
                    let s2 = skip_ws(s1.skip(1));
                    if s2.len() == 0 || s2[0] != '"' {
                        None
                    } else {
                        match spec_scan_string(s2.skip(1)) {
                            None => None,
                            Some(q) => Some((p.0, q.0, q.1)),
                        }
                    }
                }
            },
        }
    }
}

/// What a JSON creation payload denotes: an object holding exactly the
/// `title` and `text` string members, in either order, with JSON's
/// insignificant whitespace allowed between tokens.
pub open spec fn spec_dec_creator(s: Seq<char>) -> Option<CreatorView> {
    let s0 = skip_ws(s);
    if s0.len() == 0 || s0[0] != '{' {
        None
    } else {
        match spec_member(skip_ws(s0.skip(1))) {
            None => None,
            Some(m1) => {
                let s2 = skip_ws(m1.2);
                if s2.len() == 0 || s2[0] != ',' {
                    None
                } else {
                    match spec_member(skip_ws(s2.skip(1))) {
                        None => None,
                        Some(m2) => {
                            let s4 = skip_ws(m2.2);
                            if s4.len() == 0 || s4[0] != '}' || skip_ws(s4.skip(1)).len() != 0 {
                                None
                            } else if m1.0 == "title"@ && m2.0 == "text"@ {
                                Some(CreatorView { title: m1.1, text: m2.1 })
                            } else if m1.0 == "text"@ && m2.0 == "title"@ {
                                Some(CreatorView { title: m2.1, text: m1.1 })
                            } else {
                                None
                            }
                        },
                    }
                }
            },
        }
    }
}

/// The opening token of a note record, as characters.
fn tok_id_vec() -> (r: Vec<char>)
    ensures
        r@ == tok_id(),
{
    let mut v: Vec<char> = Vec::new();
    v.push('{');
    v.push('"');
    v.push('i');
    v.push('d');
    v.push('"');
    v.push(':');
    proof {
        assert(v@ =~= tok_id());
    }
    v
}

/// The title separator of a note record, as characters.
fn tok_title_vec() -> (r: Vec<char>)
    ensures
        r@ == tok_title(),
{
    let mut v: Vec<char> = Vec::new();
    v.push(',');
    v.push('"');
    v.push('t');
    v.push('i');
    v.push('t');
    v.push('l');
    v.push('e');
    v.push('"');
    v.push(':');
    v.push('"');
    proof {
        assert(v@ =~= tok_title());
    }
    v
}

/// The text separator, as characters.
fn tok_text_vec() -> (r: Vec<char>)
    ensures
        r@ == tok_text(),
{
    let mut v: Vec<char> = Vec::new();
    v.push(',');
    v.push('"');
    v.push('t');
    v.push('e');
    v.push('x');
    v.push('t');
    v.push('"');
    v.push(':');
    v.push('"');
    proof {
        assert(v@ =~= tok_text());
    }
    v
}

/// Exec test matching is_hex.
fn is_hex_char(c: char) -> (r: bool)
    ensures
        r == is_hex(c),
{
    crate::text::is_digit_char(c) || c == 'a' || c == 'b' || c == 'c' || c == 'd' || c == 'e'
        || c == 'f' || c == 'A' || c == 'B' || c == 'C' || c == 'D' || c == 'E' || c == 'F'
}

/// Exec value of a hexadecimal digit character.
fn hex_value(c: char) -> (r: u32)
    requires
        is_hex(c),
    ensures
        r == hex_val(c),
{
    if c == 'a' || c == 'A' {
        10
    } else if c == 'b' || c == 'B' {
        11
    } else if c == 'c' || c == 'C' {
        12
    } else if c == 'd' || c == 'D' {
        13
    } else if c == 'e' || c == 'E' {
        14
    } else if c == 'f' || c == 'F' {
        15
    } else {
        crate::text::digit_value(c)
    }
}

/// Exec hexadecimal digit character of a value in 0..16.
fn hex_to_char(d: u32) -> (r: char)
    requires
        d < 16,
    ensures
        r == hex_digit(d as int),
{
    if d == 0 {
        '0'
    } else if d == 1 {
        '1'
    } else if d == 2 {
        '2'
    } else if d == 3 {
        '3'
    } else if d == 4 {
        '4'
    } else if d == 5 {
        '5'
    } else if d == 6 {
        '6'
    } else if d == 7 {
        '7'
    } else if d == 8 {
        '8'
    } else if d == 9 {
        '9'
    } else if d == 10 {
        'a'
    } else if d == 11 {
        'b'
    } else if d == 12 {
        'c'
    } else if d == 13 {
        'd'
    } else if d == 14 {
        'e'
    } else {
        'f'
    }
}

/// The character with the given code, when that code is a Unicode scalar
/// value.
///
/// Relies on std's char::from_u32: it yields the character with the given
/// code exactly when the code is a Unicode scalar value (not a surrogate
/// half, at most 0x10FFFF), and nothing otherwise.
#[verifier::external_body]
fn char_from_u32(code: u32) -> (r: Option<char>)
    ensures
        (code < 0xD800 || (0xE000 <= code && code <= 0x10FFFF)) ==> r == Some((code as char)),
        !(code < 0xD800 || (0xE000 <= code && code <= 0x10FFFF)) ==> r is None,
{
    char::from_u32(code)
}

/// Appends the escaped form of the characters.
pub(crate) fn push_escaped(src: &Vec<char>, out: &mut Vec<char>)
    ensures
        final(out)@ == old(out)@ + esc(src@),
{
    let mut i: usize = 0;
    while i < src.len()
        invariant
            i <= src@.len(),
            out@ =~= old(out)@ + esc(src@.subrange(0, i as int)),
        decreases src@.len() - i,
    {
        let c = src[i];
        if c == '"' {
            out.push('\\');
            out.push('"');
        } else if c == '\\' {
            out.push('\\');
            out.push('\\');
        } else if c == '\n' {
            out.push('\\');
            out.push('n');
        } else if c == '\r' {
            out.push('\\');
            out.push('r');
        } else if c == '\t' {
            out.push('\\');
            out.push('t');
        } else if c == '\u{8}' {
            out.push('\\');
            out.push('b');
        } else if c == '\u{c}' {
            out.push('\\');
            out.push('f');
        } else if (c as u32) < 0x20 {
            let u = c as u32;
            out.push('\\');
            out.push('u');
            out.push('0');
            out.push('0');
            out.push(hex_to_char(u / 16));
            out.push(hex_to_char(u % 16));
        } else {
            out.push(c);
        }
        i += 1;
        proof {
            let done = src@.subrange(0, i - 1);
            lemma_esc_append(done, seq![src@[i - 1]]);
            assert(seq![src@[i - 1]].skip(1) =~= Seq::<char>::empty());
            assert(esc(Seq::<char>::empty()) == Seq::<char>::empty());
            assert(esc(seq![src@[i - 1]]) =~= esc_char(src@[i - 1]));
            assert(src@.subrange(0, i as int) =~= done + seq![src@[i - 1]]);
            assert(out@ =~= old(out)@ + esc(src@.subrange(0, i as int)));
        }
    }
    proof {
        assert(src@.subrange(0, src@.len() as int) =~= src@);
    }
}

/// Appends the JSON record of one note.
fn push_note_json(n: &NoteSerializer, out: &mut Vec<char>)
    ensures
        final(out)@ == old(out)@ + enc_note(n@),
{
    let ghost entry = out@;
    let mut t1 = tok_id_vec();
    out.append(&mut t1);
    let mut ids = crate::text::i32_to_chars(n.id);
    out.append(&mut ids);
    let mut t2 = tok_title_vec();
    out.append(&mut t2);
    let tc = crate::text::str_chars(n.title.as_str());
    push_escaped(&tc, out);
    out.push('"');
    let mut t3 = tok_text_vec();
    out.append(&mut t3);
    let xc = crate::text::str_chars(n.text.as_str());
    push_escaped(&xc, out);
    out.push('"');
    out.push('}');
    proof {
        assert(out@ =~= entry + enc_note(n@));
    }
}

/// The JSON text of one note record.
pub fn encode_note(n: &NoteSerializer) -> (r: String)
    ensures
        r@ == enc_note(n@),
{
    let mut out: Vec<char> = Vec::new();
    push_note_json(n, &mut out);
    proof {
        assert(out@ =~= enc_note(n@));
    }
    crate::text::chars_to_string(&out)
}

/// The JSON array of note records.
pub fn encode_note_list(ns: &Vec<NoteSerializer>) -> (r: String)
    ensures
        r@ == enc_note_list(views_of(ns@)),
{
    let mut out: Vec<char> = Vec::new();
    out.push('[');
    let mut i: usize = 0;
    while i < ns.len()
        invariant
            i <= ns@.len(),
            out@ =~= seq!['['] + enc_items(views_of(ns@).subrange(0, i as int)),
        decreases ns@.len() - i,
    {
        if i > 0 {
            out.push(',');
        }
        push_note_json(&ns[i], &mut out);
        i += 1;
        proof {
            let prefix = views_of(ns@).subrange(0, i - 1);
            lemma_enc_items_snoc(prefix, ns@[i - 1]@);
            assert(enc_items(seq![ns@[i - 1]@]) == enc_note(ns@[i - 1]@));
            assert(views_of(ns@).subrange(0, i as int) =~= prefix.push(ns@[i - 1]@));
            assert(out@ =~= seq!['['] + enc_items(views_of(ns@).subrange(0, i as int)));
        }
    }
    out.push(']');
    proof {
        assert(views_of(ns@).subrange(0, ns@.len() as int) =~= views_of(ns@));
        assert(out@ =~= enc_note_list(views_of(ns@)));
    }
    crate::text::chars_to_string(&out)
}

/// True when two character vectors hold the same characters.
fn chars_eq(a: &Vec<char>, b: &Vec<char>) -> (r: bool)
    ensures
        r == (a@ == b@),
{
    if a.len() != b.len() {
        proof {
            assert(a@.len() != b@.len());
        }
        return false;
    }
    let n = a.len();
    let mut j: usize = 0;
    while j < n
        invariant
            j <= n,
            n == a@.len(),
            n == b@.len(),
            forall|k: int| 0 <= k < j ==> a@[k] == b@[k],
        decreases n - j,
    {
        if a[j] != b[j] {
            proof {
                assert(a@[j as int] != b@[j as int]);
            }
            return false;
        }
        j += 1;
    }
    proof {
        assert(a@ =~= b@);
    }
    true
}

/// True when the token occurs in the input at the given position.
fn starts_with(s: &Vec<char>, i: usize, t: &Vec<char>) -> (r: bool)
    requires
        i <= s@.len(),
    ensures
        r == (i + t@.len() <= s@.len() && s@.subrange(i as int, i as int + t@.len() as int)
            == t@),
{
    let n = t.len();
    let slen = s.len();
    if slen - i < n {
        return false;
    }
    let mut j: usize = 0;
    while j < n
        invariant
            j <= n,
            n == t@.len(),
            slen == s@.len(),
            i + n <= slen,
            forall|k: int| 0 <= k < j ==> s@[i + k] == t@[k],
        decreases n - j,
    {
        if s[i + j] != t[j] {
            proof {
                let sub = s@.subrange(i as int, i as int + n as int);
                assert(sub[j as int] == s@[i + j]);
                assert(sub != t@);
            }
            return false;
        }
        j += 1;
    }
    proof {
        assert(s@.subrange(i as int, i as int + n as int) =~= t@);
    }
    true
}

/// A copy of a range of the characters.
fn copy_range(s: &Vec<char>, a: usize, b: usize) -> (r: Vec<char>)
    requires
        a <= b <= s@.len(),
    ensures
        r@ == s@.subrange(a as int, b as int),
{
    let mut out: Vec<char> = Vec::new();
    let mut j: usize = a;
    while j < b
        invariant
            a <= j <= b <= s@.len(),
            out@ =~= s@.subrange(a as int, j as int),
        decreases b - j,
    {
        out.push(s[j]);
        j += 1;
        proof {
            assert(out@ =~= s@.subrange(a as int, j as int));
        }
    }
    proof {
        assert(out@ =~= s@.subrange(a as int, b as int));
    }
    out
}

/// End of the run of digit characters starting at the given position.
fn digit_run_end(s: &Vec<char>, from: usize) -> (r: usize)
    requires
        from <= s@.len(),
    ensures
        from <= r <= s@.len(),
        forall|k: int| from <= k < r ==> is_digit(#[trigger] s@[k]),
        r == s@.len() || !is_digit(s@[r as int]),
{
    let mut j: usize = from;
    while j < s.len()
        invariant
            from <= j <= s@.len(),
            forall|k: int| from <= k < j ==> is_digit(#[trigger] s@[k]),
        decreases s@.len() - j,
    {
        if !is_digit_char(s[j]) {
            return j;
        }
        j += 1;
    }
    j
}

/// Scans a JSON string body from the given position to its closing quote.
#[verifier::loop_isolation(false)]
fn scan_string(s: &Vec<char>, i: usize) -> (r: Option<(Vec<char>, usize)>)
    requires
        i <= s@.len(),
    ensures
        match r {
            Some(p) => spec_scan_string(s@.skip(i as int)) == Some(
                (p.0@, s@.skip(p.1 as int)),
            ) && i < p.1 <= s@.len(),
            None => spec_scan_string(s@.skip(i as int)) is None,
        },
    decreases s@.len() - i,
{
    let ghost rem = s@.skip(i as int);
    if i >= s.len() {
        proof {
            assert(rem =~= Seq::<char>::empty());
        }
        return None;
    }
    proof {
        assert(rem.len() == s@.len() - i);
        assert(rem[0] == s@[i as int]);
    }
    let c = s[i];
    if c == '"' {
        proof {
            assert(rem.skip(1) =~= s@.skip(i as int + 1));
        }
        return Some((Vec::new(), i + 1));
    }
    if c == '\\' {
        if i + 1 >= s.len() {
            proof {
                assert(rem.len() < 2);
            }
            return None;
        }
        proof {
            assert(rem[1] == s@[i as int + 1]);
        }
        let e = s[i + 1];
        if e == 'u' {
            if s.len() - i < 6 {
                proof {
                    assert(rem.len() < 6);
                }
                return None;
            }
            proof {
                assert(rem[2] == s@[i as int + 2]);
                assert(rem[3] == s@[i as int + 3]);
                assert(rem[4] == s@[i as int + 4]);
                assert(rem[5] == s@[i as int + 5]);
            }
            let h2 = s[i + 2];
            let h3 = s[i + 3];
            let h4 = s[i + 4];
            let h5 = s[i + 5];
            if !(is_hex_char(h2) && is_hex_char(h3) && is_hex_char(h4) && is_hex_char(h5)) {
                return None;
            }
            let code: u32 = hex_value(h2) * 4096 + hex_value(h3) * 256 + hex_value(h4) * 16
                + hex_value(h5);
            if 0xD800 <= code && code < 0xE000 {
                proof {
                    assert(!bmp_scalar(code as int));
                }
                return None;
            }
            proof {
                assert(bmp_scalar(code as int));
                assert(rem.skip(6) =~= s@.skip(i as int + 6));
            }
            let u = char_from_u32(code).unwrap();
            match scan_string(s, i + 6) {
                Some(p) => {
                    let j = p.1;
                    let mut tv = p.0;
                    let mut outv: Vec<char> = Vec::new();
                    outv.push(u);
                    outv.append(&mut tv);
                    proof {
                        assert(outv@ =~= seq![u] + outv@.skip(1));
                    }
                    Some((outv, j))
                },
                None => None,
            }
        } else {
            let u: char;
            if e == '"' {
                u = '"';
            } else if e == '\\' {
                u = '\\';
            } else if e == '/' {
                u = '/';
            } else if e == 'n' {
                u = '\n';
            } else if e == 'r' {
                u = '\r';
            } else if e == 't' {
                u = '\t';
            } else if e == 'b' {
                u = '\u{8}';
            } else if e == 'f' {
                u = '\u{c}';
            } else {
                proof {
                    assert(unescape_char(rem[1]) is None);
                }
                return None;
            }
            proof {
                assert(unescape_char(rem[1]) == Some(u));
                assert(rem.skip(2) =~= s@.skip(i as int + 2));
            }
            match scan_string(s, i + 2) {
                Some(p) => {
                    let j = p.1;
                    let mut tv = p.0;
                    let mut outv: Vec<char> = Vec::new();
                    outv.push(u);
                    outv.append(&mut tv);
                    proof {
                        assert(outv@ =~= seq![u] + outv@.skip(1));
                    }
                    Some((outv, j))
                },
                None => None,
            }
        }
    } else {
        proof {
            assert(rem.skip(1) =~= s@.skip(i as int + 1));
        }
        match scan_string(s, i + 1) {
            Some(p) => {
                let j = p.1;
                let mut tv = p.0;
                let mut outv: Vec<char> = Vec::new();
                outv.push(c);
                outv.append(&mut tv);
                proof {
                    assert(outv@ =~= seq![c] + outv@.skip(1));
                }
                Some((outv, j))
            },
            None => None,
        }
    }
}

/// Decodes a JSON note record: exactly the texts spec_dec_note accepts,
/// with the record they denote.
#[verifier::loop_isolation(false)]
#[verifier::rlimit(60)]
pub fn decode_note(s: &str) -> (r: Option<NoteSerializer>)
    ensures
        match r {
            Some(n) => spec_dec_note(s@) == Some(n@),
            None => spec_dec_note(s@) is None,
        },
{
    let cs = crate::text::str_chars(s);
    let clen = cs.len();
    let t_id = tok_id_vec();
    if !starts_with(&cs, 0, &t_id) {
        proof {
            assert(s@.subrange(0, s@.len() as int) =~= s@);
            assert(expect(s@, tok_id()) is None);
        }
        return None;
    }
    let mut i: usize = t_id.len();
    let ghost s1 = s@.skip(6);
    proof {
        assert(s@.subrange(0, 6) == tok_id());
        assert(expect(s@, tok_id()) == Some(s1));
    }
    // the integer token: optional sign, then the digit run
    let start = i;
    if i < cs.len() && (cs[i] == '-' || cs[i] == '+') {
        i += 1;
    }
    let dend = digit_run_end(&cs, i);
    let ghost tl = int_token_len(s1);
    proof {
        assert(forall|k: int| 0 <= k < s1.len() ==> s1[k] == s@[6 + k]);
        if i > start {
            assert(forall|k: int| 0 <= k < s1.skip(1).len() ==> #[trigger] s1.skip(1)[k]
                == s@[7 + k]);
            lemma_digit_run_exact(s1.skip(1), dend - 7);
            assert(tl == dend - 6);
        } else {
            lemma_digit_run_exact(s1, dend - 6);
            assert(tl == dend - 6);
        }
        assert(s1.subrange(0, tl) =~= s@.subrange(6, dend as int));
    }
    let idtok = copy_range(&cs, start, dend);
    let id: i32;
    match crate::text::parse_i32_chars(&idtok) {
        Some(v) => {
            id = v;
        },
        None => {
            proof {
                assert(spec_parse_i32(s1.subrange(0, tl)) is None);
                assert(spec_dec_note(s@) is None);
            }
            return None;
        },
    }
    // only the canonical rendering of the id: no '+', no leading zeros
    let canon = crate::text::i32_to_chars(id);
    if !chars_eq(&idtok, &canon) {
        proof {
            assert(s1.subrange(0, tl) != int_chars(id as int));
            assert(spec_dec_note(s@) is None);
        }
        return None;
    }
    proof {
        assert(s1.subrange(0, tl) == int_chars(id as int));
    }
    i = dend;
    let ghost s2 = s1.skip(tl);
    proof {
        assert(s2 =~= s@.skip(i as int));
    }
    // the title
    let t_title = tok_title_vec();
    if !starts_with(&cs, i, &t_title) {
        proof {
            assert(s2.len() >= 10 ==> s2.subrange(0, 10) =~= s@.subrange(
                i as int,
                i as int + 10,
            ));
            assert(expect(s2, tok_title()) is None);
        }
        return None;
    }
    proof {
        assert(s2.subrange(0, 10) =~= s@.subrange(i as int, i as int + 10));
        assert(s2.skip(10) =~= s@.skip(i as int + 10));
        assert(expect(s2, tok_title()) == Some(s@.skip(i as int + 10)));
    }
    i = i + 10;
    let scanned_title = scan_string(&cs, i);
    if scanned_title.is_none() {
        proof {
            assert(spec_dec_note(s@) is None);
        }
        return None;
    }
    let p_title = scanned_title.unwrap();
    let title_v = p_title.0;
    i = p_title.1;
    proof {
        assert(i <= s@.len());
    }
    // the text
    let t_text = tok_text_vec();
    let ghost s3 = s@.skip(i as int);
    if !starts_with(&cs, i, &t_text) {
        proof {
            assert(s3.len() >= 9 ==> s3.subrange(0, 9) =~= s@.subrange(
                i as int,
                i as int + 9,
            ));
            assert(expect(s3, tok_text()) is None);
        }
        return None;
    }
    proof {
        assert(s3.subrange(0, 9) =~= s@.subrange(i as int, i as int + 9));
        assert(s3.skip(9) =~= s@.skip(i as int + 9));
        assert(expect(s3, tok_text()) == Some(s@.skip(i as int + 9)));
    }
    i = i + 9;
    let scanned_text = scan_string(&cs, i);
    if scanned_text.is_none() {
        proof {
            assert(spec_dec_note(s@) is None);
        }
        return None;
    }
    let p_text = scanned_text.unwrap();
    let text_v = p_text.0;
    i = p_text.1;
    proof {
        assert(i <= s@.len());
    }
    // the closing brace must end the input
    if clen - i == 1 && cs[i] == '}' {
        proof {
            assert(s@.skip(i as int) =~= seq!['}']);
        }
        let n = NoteSerializer {
            id,
            title: crate::text::chars_to_string(&title_v),
            text: crate::text::chars_to_string(&text_v),
        };
        Some(n)
    } else {
        proof {
            assert(s@.skip(i as int) != seq!['}']) by {
                if i + 1 == s@.len() {
                    assert(s@.skip(i as int)[0] == s@[i as int]);
                } else {
                    assert(s@.skip(i as int).len() != 1);
                }
            }
        }
        None
    }
}

/// End of the run of whitespace characters from the given position.
fn ws_end(s: &Vec<char>, from: usize) -> (r: usize)
    requires
        from <= s@.len(),
    ensures
        from <= r <= s@.len(),
        s@.skip(r as int) == skip_ws(s@.skip(from as int)),
{
    let clen = s.len();
    let mut j: usize = from;
    while j < clen
        invariant
            from <= j <= clen,
            clen == s@.len(),
            forall|k: int| from <= k < j ==> is_ws(#[trigger] s@[k]),
        decreases clen - j,
    {
        let c = s[j];
        if !(c == ' ' || c == '\t' || c == '\n' || c == '\r') {
            proof {
                let rem = s@.skip(from as int);
                assert(forall|k: int| 0 <= k < rem.len() ==> #[trigger] rem[k] == s@[from + k]);
                lemma_ws_run_exact(rem, j - from);
                assert(rem.skip(j - from) =~= s@.skip(j as int));
            }
            return j;
        }
        j += 1;
    }
    proof {
        let rem = s@.skip(from as int);
        assert(forall|k: int| 0 <= k < rem.len() ==> #[trigger] rem[k] == s@[from + k]);
        lemma_ws_run_exact(rem, clen - from);
        assert(rem.skip(clen - from) =~= s@.skip(clen as int));
    }
    j
}

/// Scans one member from the given position (the name's opening quote):
/// the decoded name, the decoded value, and the position after the
/// value's closing quote.
#[verifier::loop_isolation(false)]
#[verifier::rlimit(60)]
fn scan_member(s: &Vec<char>, i: usize) -> (r: Option<(Vec<char>, Vec<char>, usize)>)
    requires
        i <= s@.len(),
    ensures
        match r {
            Some(m) => spec_member(s@.skip(i as int)) == Some(
                (m.0@, m.1@, s@.skip(m.2 as int)),
            ) && i < m.2 <= s@.len(),
            None => spec_member(s@.skip(i as int)) is None,
        },
{
    let clen = s.len();
    let ghost rem = s@.skip(i as int);
    if i >= clen || s[i] != '"' {
        proof {
            if i < clen {
                assert(rem[0] == s@[i as int]);
            } else {
                assert(rem.len() == 0);
            }
        }
        return None;
    }
    proof {
        assert(rem[0] == '"');
        assert(rem.skip(1) =~= s@.skip(i as int + 1));
    }
    let p = match scan_string(s, i + 1) {
        Some(p) => p,
        None => {
            return None;
        },
    };
    let name = p.0;
    let mut j: usize = ws_end(s, p.1);
    if j >= clen || s[j] != ':' {
        proof {
            if j < clen {
                assert(s@.skip(j as int)[0] == s@[j as int]);
            }
        }
        return None;
    }
    proof {
        assert(s@.skip(j as int)[0] == ':');
        assert(s@.skip(j as int).skip(1) =~= s@.skip(j as int + 1));
    }
    j = ws_end(s, j + 1);
    if j >= clen || s[j] != '"' {
        proof {
            if j < clen {
                assert(s@.skip(j as int)[0] == s@[j as int]);
            }
        }
        return None;
    }
    proof {
        assert(s@.skip(j as int)[0] == '"');
        assert(s@.skip(j as int).skip(1) =~= s@.skip(j as int + 1));
    }
    let q = match scan_string(s, j + 1) {
        Some(q) => q,
        None => {
            return None;
        },
    };
    Some((name, q.0, q.1))
}

/// Decodes a JSON creation payload: exactly the texts spec_dec_creator
/// accepts, with the payload they denote.
#[verifier::loop_isolation(false)]
#[verifier::rlimit(100)]
pub fn decode_note_creator(s: &str) -> (r: Option<NoteCreator>)
    ensures
        match r {
            Some(c) => spec_dec_creator(s@) == Some(c@),
            None => spec_dec_creator(s@) is None,
        },
{
    let cs = crate::text::str_chars(s);
    let clen = cs.len();
    let mut i: usize = ws_end(&cs, 0);
    proof {
        assert(s@.skip(0) =~= s@);
        assert(s@.skip(i as int) == skip_ws(s@));
    }
    let ghost s0 = skip_ws(s@);
    if i >= clen || cs[i] != '{' {
        proof {
            if i < clen {
                assert(s0[0] == s@[i as int]);
            } else {
                assert(s0.len() == 0);
            }
        }
        return None;
    }
    proof {
        assert(s0[0] == '{');
        assert(s0.skip(1) =~= s@.skip(i as int + 1));
    }
    i = ws_end(&cs, i + 1);
    let m1 = match scan_member(&cs, i) {
        Some(m) => m,
        None => {
            proof {
                assert(spec_dec_creator(s@) is None);
            }
            return None;
        },
    };
    let mut j: usize = ws_end(&cs, m1.2);
    if j >= clen || cs[j] != ',' {
        proof {
            if j < clen {
                assert(s@.skip(j as int)[0] == s@[j as int]);
            }
            assert(spec_dec_creator(s@) is None);
        }
        return None;
    }
    proof {
        assert(s@.skip(j as int)[0] == ',');
        assert(s@.skip(j as int).skip(1) =~= s@.skip(j as int + 1));
    }
    j = ws_end(&cs, j + 1);
    let m2 = match scan_member(&cs, j) {
        Some(m) => m,
        None => {
            proof {
                assert(spec_dec_creator(s@) is None);
            }
            return None;
        },
    };
    let k: usize = ws_end(&cs, m2.2);
    if k >= clen || cs[k] != '}' {
        proof {
            if k < clen {
                assert(s@.skip(k as int)[0] == s@[k as int]);
            }
            assert(spec_dec_creator(s@) is None);
        }
        return None;
    }
    proof {
        assert(s@.skip(k as int)[0] == '}');
        assert(s@.skip(k as int).skip(1) =~= s@.skip(k as int + 1));
    }
    let e = ws_end(&cs, k + 1);
    if e != clen {
        proof {
            assert(skip_ws(s@.skip(k as int + 1)).len() == clen - e);
            assert(spec_dec_creator(s@) is None);
        }
        return None;
    }
    proof {
        assert(skip_ws(s@.skip(k as int + 1)).len() == 0);
    }
    let mut title_name: Vec<char> = Vec::new();
    title_name.push('t');
    title_name.push('i');
    title_name.push('t');
    title_name.push('l');
    title_name.push('e');
    let mut text_name: Vec<char> = Vec::new();
    text_name.push('t');
    text_name.push('e');
    text_name.push('x');
    text_name.push('t');
    proof {
        reveal_strlit("title");
        reveal_strlit("text");
        assert(title_name@ =~= "title"@);
        assert(text_name@ =~= "text"@);
    }
    if chars_eq(&m1.0, &title_name) && chars_eq(&m2.0, &text_name) {
        Some(NoteCreator {
            title: crate::text::chars_to_string(&m1.1),
            text: crate::text::chars_to_string(&m2.1),
        })
    } else if chars_eq(&m1.0, &text_name) && chars_eq(&m2.0, &title_name) {
        Some(NoteCreator {
            title: crate::text::chars_to_string(&m2.1),
            text: crate::text::chars_to_string(&m1.1),
        })
    } else {
        proof {
            assert(spec_dec_creator(s@) is None);
        }
        None
    }
}

/// Law: decoding the canonical JSON of any note yields the identical
/// record.
#[verifier::rlimit(100)]
pub proof fn lemma_note_round_trip(v: NoteView)
    requires
        i32::MIN <= v.id <= i32::MAX,
    ensures
        spec_dec_note(enc_note(v)) == Some(v),
{
    let s = enc_note(v);
    let ints = int_chars(v.id);
    let tail_text = esc(v.text) + seq!['"', '}'];
    let tail_title = tok_text() + tail_text;
    let rest_title = esc(v.title) + seq!['"'] + tail_title;
    let after_id = ints + (tok_title() + rest_title);
    assert(s =~= tok_id() + after_id);
    lemma_expect_prefix(tok_id(), after_id);
    assert(expect(s, tok_id()) == Some(after_id));
    // the integer token is exactly the rendered id
    crate::text::lemma_udigits_digits(if v.id < 0 {
        (-v.id) as nat
    } else {
        v.id as nat
    });
    let rest0 = tok_title() + rest_title;
    assert(rest0[0] == ',');
    assert(!is_digit(','));
    if v.id < 0 {
        assert(ints == seq!['-'] + udigits((-v.id) as nat));
        assert(after_id[0] == '-');
        assert(after_id.skip(1) =~= udigits((-v.id) as nat) + rest0);
        lemma_digit_run(udigits((-v.id) as nat), rest0);
        assert(int_token_len(after_id) == ints.len());
    } else {
        assert(ints == udigits(v.id as nat));
        assert(after_id[0] == ints[0]);
        assert(is_digit(ints[0]));
        assert(after_id =~= udigits(v.id as nat) + rest0);
        lemma_digit_run(udigits(v.id as nat), rest0);
        assert(int_token_len(after_id) == ints.len());
    }
    let tl = int_token_len(after_id);
    assert(after_id.subrange(0, tl) =~= ints);
    crate::text::lemma_parse_int_chars(v.id);
    assert(spec_parse_i32(after_id.subrange(0, tl)) == Some(v.id));
    assert(after_id.subrange(0, tl) == int_chars(v.id));
    assert(after_id.skip(tl) =~= tok_title() + rest_title);
    lemma_expect_prefix(tok_title(), rest_title);
    assert(expect(after_id.skip(tl), tok_title()) == Some(rest_title));
    // the title string
    assert(rest_title =~= esc(v.title) + seq!['"'] + tail_title);
    lemma_scan_escaped(v.title, tail_title);
    assert(spec_scan_string(rest_title) == Some((v.title, tail_title)));
    // the text string
    lemma_expect_prefix(tok_text(), tail_text);
    assert(expect(tail_title, tok_text()) == Some(tail_text));
    assert(tail_text =~= esc(v.text) + seq!['"'] + seq!['}']);
    lemma_scan_escaped(v.text, seq!['}']);
    assert(spec_scan_string(tail_text) == Some((v.text, seq!['}'])));
    assert(spec_dec_note(s) == Some(NoteView { id: v.id, title: v.title, text: v.text }));
    assert(NoteView { id: v.id, title: v.title, text: v.text } == v);
}

} // verus!
