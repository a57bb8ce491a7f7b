//! Literals: their source text, built from strings, characters, byte
//! strings and integers with the escapes that Rust's lexer reads back.

use vstd::prelude::*;
use crate::span::{call_site_span, span_debug, Span};
use crate::unescape::{
    character_text, debug_escape_form, lemma_byte_string_round_trip, lemma_character_round_trip,
    lemma_string_round_trip, unescape_byte_string, unescape_char_literal, unescape_string,
};
use crate::text::{chars_of, decimal, push_char, push_decimal, push_signed_decimal, signed_decimal};

verus! {

/// The characters that std's `char::escape_debug` yields for `c`.
pub uninterp spec fn char_escape_debug(c: char) -> Seq<char>;

/// Appends the characters of `c.escape_debug()` (std's `char::escape_debug`,
/// which yields the literal escape code of a character as its `Debug`
/// rendering writes it) to `s`. The escape is named `char_escape_debug`.
/// Of it the contract claims only its form: the short escape for tab,
/// carriage return, line feed, backslash and both quotes, `\0` or a Unicode
/// escape for NUL, and otherwise the character itself or its Unicode escape
/// `\u{...}`. Which characters are left as they are, which depends on std's
/// printable and grapheme-extend tables, is left unsaid.
#[verifier::external_body]
fn extend_escape_debug(s: &mut String, c: char)
    ensures
        final(s)@ == old(s)@ + char_escape_debug(c),
        debug_escape_form(c, final(s)@.subrange(old(s)@.len() as int, final(s)@.len() as int)),
{
    s.extend(c.escape_debug());
}

/// How a character of a string literal is written: a single quote as it
/// is, every other character as `escape_debug` writes it.
pub open spec fn string_char_escape(c: char) -> Seq<char> {
    if c == '\'' {
        seq![c]
    } else {
        char_escape_debug(c)
    }
}

/// The escaped body of a string literal.
pub open spec fn escape_string_body(s: Seq<char>) -> Seq<char>
    decreases s.len(),
{
    if s.len() == 0 {
        seq![]
    } else {
        escape_string_body(s.drop_last()) + string_char_escape(s.last())
    }
}

/// The uppercase hexadecimal digit of `d < 16`.
pub open spec fn hex_digit(d: nat) -> char {
    if d < 10 {
        (48 + d) as char
    } else {
        (55 + d) as char
    }
}

/// How a byte of a byte-string literal is written.
pub open spec fn byte_escape(b: u8) -> Seq<char> {
    if b == 0 {
        seq!['\\', '0']
    } else if b == 9 {
        seq!['\\', 't']
    } else if b == 10 {
        seq!['\\', 'n']
    } else if b == 13 {
        seq!['\\', 'r']
    } else if b == 34 {
        seq!['\\', '"']
    } else if b == 92 {
        seq!['\\', '\\']
    } else if 0x20 <= b && b <= 0x7e {
        seq![b as char]
    } else {
        seq!['\\', 'x', hex_digit((b / 16) as nat), hex_digit((b % 16) as nat)]
    }
}

/// The escaped body of a byte-string literal.
pub open spec fn escape_bytes_body(bytes: Seq<u8>) -> Seq<char>
    decreases bytes.len(),
{
    if bytes.len() == 0 {
        seq![]
    } else {
        escape_bytes_body(bytes.drop_last()) + byte_escape(bytes.last())
    }
}

/// The text of a byte-string literal of `bytes`.
pub open spec fn byte_string_text(bytes: Seq<u8>) -> Seq<char> {
    seq!['b', '"'] + escape_bytes_body(bytes) + seq!['"']
}

/// The text of a string literal of `s`.
pub open spec fn string_text(s: Seq<char>) -> Seq<char> {
    seq!['"'] + escape_string_body(s) + seq!['"']
}

/// The debug rendering of a literal: `Literal { lit: .., span: .. }`.
pub open spec fn literal_debug(m: LiteralModel) -> Seq<char> {
    seq!['L', 'i', 't', 'e', 'r', 'a', 'l', ' ', '{', ' ', 'l', 'i', 't', ':', ' '] + m.text
        + seq![',', ' ', 's', 'p', 'a', 'n', ':', ' '] + span_debug(m.span) + seq![' ', '}']
}

/// A literal token: its source text and its span.
#[derive(Clone)]
pub struct Literal {
    text: String,
    span: Span,
}

/// The abstract value of a literal.
pub struct LiteralModel {
    pub text: Seq<char>,
    pub span: Span,
}

impl View for Literal {
    type V = LiteralModel;

    closed spec fn view(&self) -> LiteralModel {
        LiteralModel { text: self.text@, span: self.span }
    }
}

fn hex_char(d: u8) -> (c: char)
    requires
        d < 16,
    ensures
        c == hex_digit(d as nat),
{
    if d < 10 {
        (48u8 + d) as char
    } else {
        (55u8 + d) as char
    }
}

fn push_byte_escape(out: &mut String, b: u8)
    ensures
        final(out)@ == old(out)@ + byte_escape(b),
{
    let ghost start = out@;
    if b == 0 {
        push_char(out, '\\');
        push_char(out, '0');
    } else if b == 9 {
        push_char(out, '\\');
        push_char(out, 't');
    } else if b == 10 {
        push_char(out, '\\');
        push_char(out, 'n');
    } else if b == 13 {
        push_char(out, '\\');
        push_char(out, 'r');
    } else if b == 34 {
        push_char(out, '\\');
        push_char(out, '"');
    } else if b == 92 {
        push_char(out, '\\');
        push_char(out, '\\');
    } else if 0x20 <= b && b <= 0x7e {
        push_char(out, b as char);
    } else {
        push_char(out, '\\');
        push_char(out, 'x');
        push_char(out, hex_char(b / 16));
        push_char(out, hex_char(b % 16));
    }
    assert(out@ =~= start + byte_escape(b));
}

/// The text of an integer literal: its decimal value, then its suffix.
pub open spec fn int_text(n: int, suffix: Seq<char>) -> Seq<char> {
    signed_decimal(n) + suffix
}

impl Literal {
    /// A literal with the given text, at the call site.
    pub fn _new(text: String) -> (lit: Literal)
        ensures
            lit@ == (LiteralModel { text: text@, span: call_site_span() }),
    {
        Literal { text, span: Span::call_site() }
    }

    fn unsigned(n: u128, suffix: &str) -> (lit: Literal)
        ensures
            lit@ == (LiteralModel { text: int_text(n as int, suffix@), span: call_site_span() }),
    {
        let mut text = String::new();
        push_decimal(&mut text, n);
        text.append(suffix);
        Literal::_new(text)
    }

    fn signed(n: i128, suffix: &str) -> (lit: Literal)
        ensures
            lit@ == (LiteralModel { text: int_text(n as int, suffix@), span: call_site_span() }),
    {
        let mut text = String::new();
        push_signed_decimal(&mut text, n);
        text.append(suffix);
        Literal::_new(text)
    }

    /// The literal `nu8`: `n` in decimal with the `u8` suffix.
    pub fn u8_suffixed(n: u8) -> (lit: Literal)
        ensures
            lit@ == (LiteralModel { text: int_text(n as int, "u8"@), span: call_site_span() }),
    {
        Literal::unsigned(n as u128, "u8")
    }

    /// The unsuffixed literal `n`, in decimal.
    pub fn u8_unsuffixed(n: u8) -> (lit: Literal)
        ensures
            lit@ == (LiteralModel { text: int_text(n as int, ""@), span: call_site_span() }),
    {
        Literal::unsigned(n as u128, "")
    }

    /// The literal `nu16`: `n` in decimal with the `u16` suffix.
    pub fn u16_suffixed(n: u16) -> (lit: Literal)
        ensures
            lit@ == (LiteralModel { text: int_text(n as int, "u16"@), span: call_site_span() }),
    {
        Literal::unsigned(n as u128, "u16")
    }

    /// The unsuffixed literal `n`, in decimal.
    pub fn u16_unsuffixed(n: u16) -> (lit: Literal)
        ensures
            lit@ == (LiteralModel { text: int_text(n as int, ""@), span: call_site_span() }),
    {
        Literal::unsigned(n as u128, "")
    }

    /// The literal `nu32`: `n` in decimal with the `u32` suffix.
    pub fn u32_suffixed(n: u32) -> (lit: Literal)
        ensures
            lit@ == (LiteralModel { text: int_text(n as int, "u32"@), span: call_site_span() }),
    {
        Literal::unsigned(n as u128, "u32")
    }

    /// The unsuffixed literal `n`, in decimal.
    pub fn u32_unsuffixed(n: u32) -> (lit: Literal)
        ensures
            lit@ == (LiteralModel { text: int_text(n as int, ""@), span: call_site_span() }),
    {
        Literal::unsigned(n as u128, "")
    }

    /// The literal `nu64`: `n` in decimal with the `u64` suffix.
    pub fn u64_suffixed(n: u64) -> (lit: Literal)
        ensures
            lit@ == (LiteralModel { text: int_text(n as int, "u64"@), span: call_site_span() }),
    {
        Literal::unsigned(n as u128, "u64")
    }

    /// The unsuffixed literal `n`, in decimal.
    pub fn u64_unsuffixed(n: u64) -> (lit: Literal)
        ensures
            lit@ == (LiteralModel { text: int_text(n as int, ""@), span: call_site_span() }),
    {
        Literal::unsigned(n as u128, "")
    }

    /// The literal `nu128`: `n` in decimal with the `u128` suffix.
    pub fn u128_suffixed(n: u128) -> (lit: Literal)
        ensures
            lit@ == (LiteralModel { text: int_text(n as int, "u128"@), span: call_site_span() }),
    {
        Literal::unsigned(n as u128, "u128")
    }

    /// The unsuffixed literal `n`, in decimal.
    pub fn u128_unsuffixed(n: u128) -> (lit: Literal)
        ensures
            lit@ == (LiteralModel { text: int_text(n as int, ""@), span: call_site_span() }),
    {
        Literal::unsigned(n as u128, "")
    }

    /// The literal `nusize`: `n` in decimal with the `usize` suffix.
    pub fn usize_suffixed(n: usize) -> (lit: Literal)
        ensures
            lit@ == (LiteralModel { text: int_text(n as int, "usize"@), span: call_site_span() }),
    {
        Literal::unsigned(n as u128, "usize")
    }

    /// The unsuffixed literal `n`, in decimal.
    pub fn usize_unsuffixed(n: usize) -> (lit: Literal)
        ensures
            lit@ == (LiteralModel { text: int_text(n as int, ""@), span: call_site_span() }),
    {
        Literal::unsigned(n as u128, "")
    }

    /// The literal `ni8`: `n` in decimal with the `i8` suffix.
    pub fn i8_suffixed(n: i8) -> (lit: Literal)
        ensures
            lit@ == (LiteralModel { text: int_text(n as int, "i8"@), span: call_site_span() }),
    {
        Literal::signed(n as i128, "i8")
    }

    /// The unsuffixed literal `n`, in decimal.
    pub fn i8_unsuffixed(n: i8) -> (lit: Literal)
        ensures
            lit@ == (LiteralModel { text: int_text(n as int, ""@), span: call_site_span() }),
    {
        Literal::signed(n as i128, "")
    }

    /// The literal `ni16`: `n` in decimal with the `i16` suffix.
    pub fn i16_suffixed(n: i16) -> (lit: Literal)
        ensures
            lit@ == (LiteralModel { text: int_text(n as int, "i16"@), span: call_site_span() }),
    {
        Literal::signed(n as i128, "i16")
    }

    /// The unsuffixed literal `n`, in decimal.
    pub fn i16_unsuffixed(n: i16) -> (lit: Literal)
        ensures
            lit@ == (LiteralModel { text: int_text(n as int, ""@), span: call_site_span() }),
    {
        Literal::signed(n as i128, "")
    }

    /// The literal `ni32`: `n` in decimal with the `i32` suffix.
    pub fn i32_suffixed(n: i32) -> (lit: Literal)
        ensures
            lit@ == (LiteralModel { text: int_text(n as int, "i32"@), span: call_site_span() }),
    {
        Literal::signed(n as i128, "i32")
    }

    /// The unsuffixed literal `n`, in decimal.
    pub fn i32_unsuffixed(n: i32) -> (lit: Literal)
        ensures
            lit@ == (LiteralModel { text: int_text(n as int, ""@), span: call_site_span() }),
    {
        Literal::signed(n as i128, "")
    }

    /// The literal `ni64`: `n` in decimal with the `i64` suffix.
    pub fn i64_suffixed(n: i64) -> (lit: Literal)
        ensures
            lit@ == (LiteralModel { text: int_text(n as int, "i64"@), span: call_site_span() }),
    {
        Literal::signed(n as i128, "i64")
    }

    /// The unsuffixed literal `n`, in decimal.
    pub fn i64_unsuffixed(n: i64) -> (lit: Literal)
        ensures
            lit@ == (LiteralModel { text: int_text(n as int, ""@), span: call_site_span() }),
    {
        Literal::signed(n as i128, "")
    }

    /// The literal `ni128`: `n` in decimal with the `i128` suffix.
    pub fn i128_suffixed(n: i128) -> (lit: Literal)
        ensures
            lit@ == (LiteralModel { text: int_text(n as int, "i128"@), span: call_site_span() }),
    {
        Literal::signed(n as i128, "i128")
    }

    /// The unsuffixed literal `n`, in decimal.
    pub fn i128_unsuffixed(n: i128) -> (lit: Literal)
        ensures
            lit@ == (LiteralModel { text: int_text(n as int, ""@), span: call_site_span() }),
    {
        Literal::signed(n as i128, "")
    }

    /// The literal `nisize`: `n` in decimal with the `isize` suffix.
    pub fn isize_suffixed(n: isize) -> (lit: Literal)
        ensures
            lit@ == (LiteralModel { text: int_text(n as int, "isize"@), span: call_site_span() }),
    {
        Literal::signed(n as i128, "isize")
    }

    /// The unsuffixed literal `n`, in decimal.
    pub fn isize_unsuffixed(n: isize) -> (lit: Literal)
        ensures
            lit@ == (LiteralModel { text: int_text(n as int, ""@), span: call_site_span() }),
    {
        Literal::signed(n as i128, "")
    }

    /// A string literal whose value is `t`: `t` between double quotes,
    /// every character but `'` escaped as `escape_debug` escapes it.
    pub fn string(t: &str) -> (lit: Literal)
        ensures
            lit@ == (LiteralModel {
                text: string_text(t@),
                span: call_site_span(),
            }),
            unescape_string(lit@.text) == Some(t@),
    {
        let chars = chars_of(t);
        let n: usize = chars.len();
        let mut text = String::new();
        push_char(&mut text, '"');
        let mut i: usize = 0;
        while i < n
            invariant
                i <= n,
                n == chars@.len(),
                chars@ == t@,
                text@ == seq!['"'] + escape_string_body(chars@.take(i as int)),
                forall|j: int| 0 <= j < i && chars@[j] != '\'' ==> debug_escape_form(
                    #[trigger] chars@[j],
                    char_escape_debug(chars@[j]),
                ),
            decreases n - i,
        {
            let c = chars[i];
            let ghost before = text@;
            assert(chars@.take(i + 1).drop_last() == chars@.take(i as int));
            if c == '\'' {
                push_char(&mut text, c);
            } else {
                extend_escape_debug(&mut text, c);
                assert(text@.subrange(before.len() as int, text@.len() as int) =~= char_escape_debug(c));
            }
            i = i + 1;
        }
        assert(chars@.take(n as int) == chars@);
        proof {
            lemma_string_round_trip(t@);
        }
        push_char(&mut text, '"');
        assert(text@ =~= seq!['"'] + escape_string_body(t@) + seq!['"']);
        Literal::_new(text)
    }

    /// A character literal whose value is `t`: `t` between single quotes, a
    /// double quote as it is, any other character as `escape_debug` escapes it.
    pub fn character(t: char) -> (lit: Literal)
        ensures
            lit@ == (LiteralModel {
                text: seq!['\''] + (if t == '"' { seq![t] } else { char_escape_debug(t) }) + seq!['\''],
                span: call_site_span(),
            }),
            unescape_char_literal(lit@.text) == Some(t),
    {
        let mut text = String::new();
        push_char(&mut text, '\'');
        if t == '"' {
            push_char(&mut text, t);
        } else {
            let ghost before = text@;
            extend_escape_debug(&mut text, t);
            assert(text@.subrange(before.len() as int, text@.len() as int) =~= char_escape_debug(t));
        }
        push_char(&mut text, '\'');
        assert(text@ =~= seq!['\''] + (if t == '"' { seq![t] } else { char_escape_debug(t) }) + seq!['\'']);
        proof {
            lemma_character_round_trip(t);
            assert(text@ == character_text(t));
        }
        Literal::_new(text)
    }

    /// A byte-string literal whose value is `bytes`: `b"`, each byte as
    /// itself when printable ASCII, as a short escape for NUL, tab, newline,
    /// carriage return, `"` and `\`, else as `\x` and two uppercase hex
    /// digits; then `"`.
    pub fn byte_string(bytes: &[u8]) -> (lit: Literal)
        ensures
            lit@ == (LiteralModel {
                text: byte_string_text(bytes@),
                span: call_site_span(),
            }),
            unescape_byte_string(lit@.text) == Some(bytes@),
    {
        proof {
            lemma_byte_string_round_trip(bytes@);
        }
        let n: usize = bytes.len();
        let mut text = String::new();
        push_char(&mut text, 'b');
        push_char(&mut text, '"');
        let mut i: usize = 0;
        while i < n
            invariant
                i <= n,
                n == bytes@.len(),
                text@ == seq!['b', '"'] + escape_bytes_body(bytes@.take(i as int)),
            decreases n - i,
        {
            assert(bytes@.take(i + 1).drop_last() == bytes@.take(i as int));
            push_byte_escape(&mut text, bytes[i]);
            i = i + 1;
        }
        assert(bytes@.take(n as int) == bytes@);
        push_char(&mut text, '"');
        assert(text@ =~= seq!['b', '"'] + escape_bytes_body(bytes@) + seq!['"']);
        Literal::_new(text)
    }

    /// A float literal from the decimal text `s` of a float: `s` itself when
    /// it holds a decimal point, else `s` followed by `.0`.
    pub fn float_text(s: String) -> (lit: Literal)
        ensures
            lit@ == (LiteralModel {
                text: if s@.contains('.') { s@ } else { s@ + seq!['.', '0'] },
                span: call_site_span(),
            }),
    {
        let chars = chars_of(s.as_str());
        let n: usize = chars.len();
        let mut found = false;
        let mut i: usize = 0;
        while i < n
            invariant
                i <= n,
                n == chars@.len(),
                chars@ == s@,
                found == exists|j: int| 0 <= j < i && chars@[j] == '.',
            decreases n - i,
        {
            if chars[i] == '.' {
                found = true;
            }
            i = i + 1;
        }
        let mut text = s;
        if !found {
            push_char(&mut text, '.');
            push_char(&mut text, '0');
            assert(text@ =~= chars@ + seq!['.', '0']);
        }
        Literal::_new(text)
    }

    /// A copy of this literal.
    pub fn duplicate(&self) -> (lit: Literal)
        ensures
            lit@ == self@,
    {
        Literal { text: self.text.clone(), span: self.span }
    }

    /// The span of this literal.
    pub fn span(&self) -> (s: Span)
        ensures
            s == self@.span,
    {
        self.span
    }

    /// Replaces the span of this literal.
    pub fn set_span(&mut self, span: Span)
        ensures
            final(self)@ == (LiteralModel { span, ..old(self)@ }),
    {
        self.span = span;
    }

    /// The span of a subrange of the literal's text: none is kept.
    pub fn subspan<R: std::ops::RangeBounds<usize>>(&self, _range: R) -> (s: Option<Span>)
        ensures
            s is None,
    {
        None
    }

    /// The debug rendering of this literal: its text and its span.
    pub fn debug_text(&self) -> (t: String)
        ensures
            t@ == literal_debug(self@),
    {
        let mut t = "Literal { lit: ".to_owned();
        proof {
            reveal_strlit("Literal { lit: ");
            reveal_strlit(", span: ");
            reveal_strlit(" }");
        }
        t.append(self.text.as_str());
        t.append(", span: ");
        let sp = self.span.debug_text();
        t.append(sp.as_str());
        t.append(" }");
        assert(t@ =~= literal_debug(self@));
        t
    }

    /// The source text of this literal.
    pub fn to_text(&self) -> (t: String)
        ensures
            t@ == self@.text,
    {
        self.text.clone()
    }
}

/// Printable ASCII: from space to tilde.
pub open spec fn printable_ascii(c: char) -> bool {
    ' ' <= c && c <= '~'
}

proof fn lemma_escape_bytes_body_printable(bytes: Seq<u8>)
    ensures
        forall|i: int| 0 <= i < escape_bytes_body(bytes).len() ==> printable_ascii(#[trigger] escape_bytes_body(bytes)[i]),
    decreases bytes.len(),
{
    if bytes.len() > 0 {
        lemma_escape_bytes_body_printable(bytes.drop_last());
        let b = bytes.last();
        let prefix = escape_bytes_body(bytes.drop_last());
        let e = byte_escape(b);
        assert(b / 16 < 16 && b % 16 < 16);
        assert forall|i: int| 0 <= i < e.len() implies printable_ascii(#[trigger] e[i]) by {
            if !(0x20 <= b && b <= 0x7e) && b != 0 && b != 9 && b != 10 && b != 13 && b != 34 && b != 92 {
                assert(e[2] == hex_digit((b / 16) as nat));
                assert(e[3] == hex_digit((b % 16) as nat));
            }
        }
        assert forall|i: int| 0 <= i < escape_bytes_body(bytes).len() implies printable_ascii(#[trigger] escape_bytes_body(bytes)[i]) by {
            if i >= prefix.len() {
                assert(escape_bytes_body(bytes)[i] == e[i - prefix.len()]);
            } else {
                assert(escape_bytes_body(bytes)[i] == prefix[i]);
            }
        }
    }
}

/// A byte-string literal is written in printable ASCII alone, whatever its bytes.
pub proof fn lemma_byte_string_printable(bytes: Seq<u8>)
    ensures
        forall|i: int| 0 <= i < byte_string_text(bytes).len()
            ==> printable_ascii(#[trigger] byte_string_text(bytes)[i]),
{
    lemma_escape_bytes_body_printable(bytes);
    let body = escape_bytes_body(bytes);
    let t = seq!['b', '"'] + body + seq!['"'];
    assert forall|i: int| 0 <= i < t.len() implies printable_ascii(#[trigger] t[i]) by {
        if 2 <= i < 2 + body.len() {
            assert(t[i] == body[i - 2]);
        }
    }
}

} // verus!
