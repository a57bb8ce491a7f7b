//! Reading literals back: the escapes of Rust's string and byte-string
//! literals, and the proofs that every literal this library writes reads
//! back as the value it was made from.

use vstd::prelude::*;
use crate::literal::{
    byte_escape, byte_string_text, char_escape_debug, escape_bytes_body, escape_string_body, hex_digit,
    string_char_escape, string_text,
};

verus! {

/// The value of a hexadecimal digit of either case.
pub open spec fn hex_value(c: char) -> Option<nat> {
    if '0' <= c && c <= '9' {
        Some((c as int - 48) as nat)
    } else if 'a' <= c && c <= 'f' {
        Some((c as int - 87) as nat)
    } else if 'A' <= c && c <= 'F' {
        Some((c as int - 55) as nat)
    } else {
        None
    }
}

/// The character that a backslash followed by `c` stands for, for the
/// one-character escapes `\n`, `\r`, `\t`, `\\`, `\0`, `\'` and `\"`.
pub open spec fn short_escape(c: char) -> Option<char> {
    if c == 'n' {
        Some('\n')
    } else if c == 'r' {
        Some('\r')
    } else if c == 't' {
        Some('\t')
    } else if c == '\\' {
        Some('\\')
    } else if c == '0' {
        Some('\0')
    } else if c == '\'' {
        Some('\'')
    } else if c == '"' {
        Some('"')
    } else {
        None
    }
}

/// The bytes that the body of a byte-string literal stands for, or `None`
/// where it is not a well-formed body: ASCII characters other than `"`,
/// `\` and carriage return stand for themselves; a backslash starts a
/// one-character escape or `\x` with two hexadecimal digits.
pub open spec fn unescape_bytes(s: Seq<char>) -> Option<Seq<u8>>
    decreases s.len(),
{
    if s.len() == 0 {
        Some(seq![])
    } else if s[0] == '\\' {
        if s.len() >= 2 && short_escape(s[1]) is Some {
            match unescape_bytes(s.skip(2)) {
                Some(r) => Some(seq![short_escape(s[1])->0 as u8] + r),
                None => None,
            }
        } else if s.len() >= 4 && s[1] == 'x' && hex_value(s[2]) is Some && hex_value(s[3]) is Some {
            match unescape_bytes(s.skip(4)) {
                Some(r) => Some(seq![(16 * hex_value(s[2])->0 + hex_value(s[3])->0) as u8] + r),
                None => None,
            }
        } else {
            None
        }
    } else if s[0] != '"' && s[0] != '\r' && (s[0] as int) < 0x80 {
        match unescape_bytes(s.skip(1)) {
            Some(r) => Some(seq![s[0] as u8] + r),
            None => None,
        }
    } else {
        None
    }
}

/// The bytes that a byte-string literal `b"..."` stands for, or `None`
/// where it is not one.
pub open spec fn unescape_byte_string(t: Seq<char>) -> Option<Seq<u8>> {
    if t.len() >= 3 && t[0] == 'b' && t[1] == '"' && t[t.len() - 1] == '"' {
        unescape_bytes(t.subrange(2, t.len() - 1))
    } else {
        None
    }
}

/// Prepending `b` to a decoded result.
pub open spec fn prepend_byte(b: u8, r: Option<Seq<u8>>) -> Option<Seq<u8>> {
    match r {
        Some(v) => Some(seq![b] + v),
        None => None,
    }
}

proof fn lemma_hex_digit_value(d: nat)
    requires
        d < 16,
    ensures
        hex_value(hex_digit(d)) == Some(d),
{
}

/// The escape of one byte reads back as that byte, whatever follows it.
proof fn lemma_unescape_byte_escape(b: u8, rest: Seq<char>)
    ensures
        unescape_bytes(byte_escape(b) + rest) == prepend_byte(b, unescape_bytes(rest)),
{
    let e = byte_escape(b);
    let s = e + rest;
    assert(s.skip(e.len() as int) =~= rest);
    if b == 0 || b == 9 || b == 10 || b == 13 || b == 34 || b == 92 {
        assert(s[0] == '\\');
        assert(s[1] == e[1]);
    } else if 0x20 <= b && b <= 0x7e {
        assert(s[0] == b as char);
        assert((b as char) as u8 == b);
    } else {
        lemma_hex_digit_value((b / 16) as nat);
        lemma_hex_digit_value((b % 16) as nat);
        assert(s[0] == '\\' && s[1] == 'x');
        assert(s[2] == hex_digit((b / 16) as nat));
        assert(s[3] == hex_digit((b % 16) as nat));
        assert(16 * (b / 16) + b % 16 == b);
    }
}

/// The escaped body of a byte string, built from the front.
proof fn lemma_escape_bytes_body_front(bytes: Seq<u8>)
    requires
        bytes.len() > 0,
    ensures
        escape_bytes_body(bytes) == byte_escape(bytes[0]) + escape_bytes_body(bytes.drop_first()),
    decreases bytes.len(),
{
    if bytes.len() == 1 {
        assert(bytes.drop_last() =~= Seq::<u8>::empty());
        assert(bytes.drop_first() =~= Seq::<u8>::empty());
        assert(escape_bytes_body(Seq::<u8>::empty()) == Seq::<char>::empty());
        assert(escape_bytes_body(bytes.drop_last()) == Seq::<char>::empty());
        assert(bytes.last() == bytes[0]);
        assert(escape_bytes_body(bytes) =~= byte_escape(bytes[0]));
        assert(escape_bytes_body(bytes.drop_first()) == Seq::<char>::empty());
    } else {
        let init = bytes.drop_last();
        lemma_escape_bytes_body_front(init);
        assert(init.drop_first() =~= bytes.drop_first().drop_last());
        assert(bytes.drop_first().last() == bytes.last());
        assert(escape_bytes_body(bytes) =~= byte_escape(bytes[0]) + escape_bytes_body(bytes.drop_first()));
    }
}

/// The escaped body of a byte string reads back as the bytes.
pub proof fn lemma_unescape_bytes_body(bytes: Seq<u8>)
    ensures
        unescape_bytes(escape_bytes_body(bytes)) == Some(bytes),
    decreases bytes.len(),
{
    if bytes.len() > 0 {
        lemma_escape_bytes_body_front(bytes);
        lemma_unescape_bytes_body(bytes.drop_first());
        lemma_unescape_byte_escape(bytes[0], escape_bytes_body(bytes.drop_first()));
        assert(seq![bytes[0]] + bytes.drop_first() =~= bytes);
    }
}

/// A byte-string literal reads back as exactly the bytes it was made from.
pub proof fn lemma_byte_string_round_trip(bytes: Seq<u8>)
    ensures
        unescape_byte_string(byte_string_text(bytes)) == Some(bytes),
{
    lemma_unescape_bytes_body(bytes);
    let t = byte_string_text(bytes);
    assert(t.subrange(2, t.len() - 1) =~= escape_bytes_body(bytes));
}

/// The number of hexadecimal digits in a row from index `i` of `s`.
pub open spec fn hex_run(s: Seq<char>, i: int) -> int
    decreases s.len() - i,
{
    if 0 <= i < s.len() && hex_value(s[i]) is Some {
        1 + hex_run(s, i + 1)
    } else {
        0
    }
}

/// The number that a sequence of hexadecimal digits spells.
pub open spec fn hex_number(d: Seq<char>) -> nat
    decreases d.len(),
{
    if d.len() == 0 {
        0
    } else {
        hex_number(d.drop_last()) * 16 + match hex_value(d.last()) {
            Some(v) => v,
            None => 0,
        }
    }
}

/// A Unicode scalar value: a code point that is not a surrogate.
pub open spec fn is_scalar_value(v: nat) -> bool {
    v <= 0x10FFFF && !(0xD800 <= v && v <= 0xDFFF)
}

/// `e` is a Unicode escape `\u{...}` of one to six hexadecimal digits
/// whose value is the code of `c`.
pub open spec fn is_unicode_escape(e: Seq<char>, c: char) -> bool {
    &&& 5 <= e.len() <= 10
    &&& e[0] == '\\' && e[1] == 'u' && e[2] == '{' && e[e.len() - 1] == '}'
    &&& forall|i: int| 3 <= i < e.len() - 1 ==> hex_value(#[trigger] e[i]) is Some
    &&& hex_number(e.subrange(3, e.len() - 1)) == c as nat
}

/// The forms that std's `char::escape_debug` gives a character: the short
/// escapes for tab, carriage return, line feed, backslash and both quotes;
/// for NUL `\0` or a Unicode escape; for any other character the character
/// itself or its Unicode escape.
pub open spec fn debug_escape_form(c: char, e: Seq<char>) -> bool {
    if c == '\t' {
        e == seq!['\\', 't']
    } else if c == '\r' {
        e == seq!['\\', 'r']
    } else if c == '\n' {
        e == seq!['\\', 'n']
    } else if c == '\\' {
        e == seq!['\\', '\\']
    } else if c == '"' {
        e == seq!['\\', '"']
    } else if c == '\'' {
        e == seq!['\\', '\'']
    } else if c == '\0' {
        e == seq!['\\', '0'] || is_unicode_escape(e, c)
    } else {
        e == seq![c] || is_unicode_escape(e, c)
    }
}

/// The characters that the body of a string literal stands for, or `None`
/// where it is not a well-formed body: characters other than `"`, `\` and
/// carriage return stand for themselves; a backslash starts a one-character
/// escape, `\x` with two hexadecimal digits up to 7F, or `\u{...}` with one
/// to six hexadecimal digits that spell a Unicode scalar value.
pub open spec fn unescape_str(s: Seq<char>) -> Option<Seq<char>>
    decreases s.len(),
{
    if s.len() == 0 {
        Some(seq![])
    } else if s[0] == '\\' {
        if s.len() >= 2 && short_escape(s[1]) is Some {
            match unescape_str(s.skip(2)) {
                Some(r) => Some(seq![short_escape(s[1])->0] + r),
                None => None,
            }
        } else if s.len() >= 4 && s[1] == 'x' && hex_value(s[2]) is Some && hex_value(s[3]) is Some
            && 16 * hex_value(s[2])->0 + hex_value(s[3])->0 < 0x80 {
            match unescape_str(s.skip(4)) {
                Some(r) => Some(seq![(16 * hex_value(s[2])->0 + hex_value(s[3])->0) as char] + r),
                None => None,
            }
        } else if s.len() >= 3 && s[1] == 'u' && s[2] == '{' && 1 <= hex_run(s, 3) <= 6 && s.len() > 3
            + hex_run(s, 3) && s[3 + hex_run(s, 3)] == '}' && is_scalar_value(
            hex_number(s.subrange(3, 3 + hex_run(s, 3))),
        ) {
            match unescape_str(s.skip(4 + hex_run(s, 3))) {
                Some(r) => Some(seq![hex_number(s.subrange(3, 3 + hex_run(s, 3))) as char] + r),
                None => None,
            }
        } else {
            None
        }
    } else if s[0] != '"' && s[0] != '\r' {
        match unescape_str(s.skip(1)) {
            Some(r) => Some(seq![s[0]] + r),
            None => None,
        }
    } else {
        None
    }
}

/// The string that a string literal `"..."` stands for, or `None` where it
/// is not one.
pub open spec fn unescape_string(t: Seq<char>) -> Option<Seq<char>> {
    if t.len() >= 2 && t[0] == '"' && t[t.len() - 1] == '"' {
        unescape_str(t.subrange(1, t.len() - 1))
    } else {
        None
    }
}

/// Prepending `c` to a decoded result.
pub open spec fn prepend_char(c: char, r: Option<Seq<char>>) -> Option<Seq<char>> {
    match r {
        Some(v) => Some(seq![c] + v),
        None => None,
    }
}

/// Each character of `s` but `'` is escaped in one of `escape_debug`'s forms.
pub open spec fn escapes_well_formed(s: Seq<char>) -> bool {
    forall|j: int| 0 <= j < s.len() && s[j] != '\'' ==> debug_escape_form(#[trigger] s[j], char_escape_debug(s[j]))
}

proof fn lemma_hex_run(s: Seq<char>, end: int, i: int)
    requires
        0 <= i <= end < s.len(),
        forall|k: int| i <= k < end ==> hex_value(#[trigger] s[k]) is Some,
        hex_value(s[end]) is None,
    ensures
        hex_run(s, i) == end - i,
    decreases end - i,
{
    if i < end {
        lemma_hex_run(s, end, i + 1);
    }
}

/// A Unicode escape of `c` reads back as `c`, whatever follows it.
proof fn lemma_unescape_unicode_escape(e: Seq<char>, c: char, rest: Seq<char>)
    requires
        is_unicode_escape(e, c),
    ensures
        unescape_str(e + rest) == prepend_char(c, unescape_str(rest)),
{
    let s = e + rest;
    let end = e.len() - 1;
    assert forall|k: int| 3 <= k < end implies hex_value(#[trigger] s[k]) is Some by {
        assert(s[k] == e[k]);
    }
    assert(s[end] == '}');
    lemma_hex_run(s, end, 3);
    assert(hex_run(s, 3) == e.len() - 4);
    assert(s.subrange(3, 3 + hex_run(s, 3)) =~= e.subrange(3, e.len() - 1));
    assert(s.skip(4 + hex_run(s, 3)) =~= rest);
    assert(s[1] == 'u' && s[0] == '\\' && s[2] == '{');
    assert(short_escape(s[1]) is None);
    assert((c as nat) as char == c);
}

/// An escape in one of `escape_debug`'s forms reads back as its character,
/// whatever follows it.
proof fn lemma_unescape_debug_escape(c: char, e: Seq<char>, rest: Seq<char>)
    requires
        debug_escape_form(c, e),
    ensures
        unescape_str(e + rest) == prepend_char(c, unescape_str(rest)),
{
    let s = e + rest;
    if e.len() == 2 && e[0] == '\\' {
        assert(s.skip(2) =~= rest);
        assert(s[0] == '\\' && s[1] == e[1]);
    } else if e == seq![c] {
        assert(s.skip(1) =~= rest);
        assert(s[0] == c);
    } else {
        lemma_unescape_unicode_escape(e, c, rest);
    }
}

/// How a character is written in a string literal reads back as that
/// character, whatever follows it.
proof fn lemma_unescape_string_char(c: char, rest: Seq<char>)
    requires
        c == '\'' || debug_escape_form(c, char_escape_debug(c)),
    ensures
        unescape_str(string_char_escape(c) + rest) == prepend_char(c, unescape_str(rest)),
{
    if c == '\'' {
        let s = string_char_escape(c) + rest;
        assert(s.skip(1) =~= rest);
        assert(s[0] == c);
    } else {
        lemma_unescape_debug_escape(c, char_escape_debug(c), rest);
    }
}

/// The escaped body of a string, built from the front.
proof fn lemma_escape_string_body_front(s: Seq<char>)
    requires
        s.len() > 0,
    ensures
        escape_string_body(s) == string_char_escape(s[0]) + escape_string_body(s.drop_first()),
    decreases s.len(),
{
    if s.len() == 1 {
        assert(escape_string_body(Seq::<char>::empty()) == Seq::<char>::empty());
        assert(s.drop_last() =~= Seq::<char>::empty());
        assert(s.drop_first() =~= Seq::<char>::empty());
        assert(s.last() == s[0]);
        assert(escape_string_body(s) =~= string_char_escape(s[0]));
    } else {
        let init = s.drop_last();
        lemma_escape_string_body_front(init);
        assert(init.drop_first() =~= s.drop_first().drop_last());
        assert(s.drop_first().last() == s.last());
        assert(escape_string_body(s) =~= string_char_escape(s[0]) + escape_string_body(s.drop_first()));
    }
}

/// The escaped body of a string reads back as the string, when each escape
/// has one of `escape_debug`'s forms.
pub proof fn lemma_unescape_string_body(s: Seq<char>)
    requires
        escapes_well_formed(s),
    ensures
        unescape_str(escape_string_body(s)) == Some(s),
    decreases s.len(),
{
    if s.len() > 0 {
        lemma_escape_string_body_front(s);
        assert forall|j: int| 0 <= j < s.drop_first().len() && s.drop_first()[j] != '\'' implies debug_escape_form(
            #[trigger] s.drop_first()[j],
            char_escape_debug(s.drop_first()[j]),
        ) by {
            assert(s.drop_first()[j] == s[j + 1]);
        }
        lemma_unescape_string_body(s.drop_first());
        lemma_unescape_string_char(s[0], escape_string_body(s.drop_first()));
        assert(seq![s[0]] + s.drop_first() =~= s);
    }
}

/// A string literal reads back as exactly the string it was made from,
/// when each escape has one of `escape_debug`'s forms.
pub proof fn lemma_string_round_trip(s: Seq<char>)
    requires
        escapes_well_formed(s),
    ensures
        unescape_string(string_text(s)) == Some(s),
{
    lemma_unescape_string_body(s);
    let t = string_text(s);
    assert(t.subrange(1, t.len() - 1) =~= escape_string_body(s));
}

/// A character that may stand for itself in a character literal.
pub open spec fn char_literal_raw(c: char) -> bool {
    c != '\'' && c != '\\' && c != '\n' && c != '\r' && c != '\t'
}

/// The character that a character literal `'...'` stands for, or `None`
/// where it is not one: between the quotes, one character that may stand
/// for itself, or one escape as in string literals.
pub open spec fn unescape_char_literal(t: Seq<char>) -> Option<char> {
    if t.len() >= 3 && t[0] == '\'' && t[t.len() - 1] == '\'' {
        let body = t.subrange(1, t.len() - 1);
        if body.len() == 1 && char_literal_raw(body[0]) {
            Some(body[0])
        } else if body[0] == '\\' && unescape_str(body) is Some && unescape_str(body)->0.len() == 1 {
            Some(unescape_str(body)->0[0])
        } else {
            None
        }
    } else {
        None
    }
}

/// The text of the character literal of `c`.
pub open spec fn character_text(c: char) -> Seq<char> {
    seq!['\''] + (if c == '"' { seq![c] } else { char_escape_debug(c) }) + seq!['\'']
}

/// A character literal reads back as exactly its character, when the
/// escape has one of `escape_debug`'s forms.
pub proof fn lemma_character_round_trip(c: char)
    requires
        c == '"' || debug_escape_form(c, char_escape_debug(c)),
    ensures
        unescape_char_literal(character_text(c)) == Some(c),
{
    let t = character_text(c);
    let body = t.subrange(1, t.len() - 1);
    if c == '"' {
        assert(body =~= seq![c]);
    } else {
        let e = char_escape_debug(c);
        assert(body =~= e);
        lemma_unescape_debug_escape(c, e, Seq::<char>::empty());
        assert(e + Seq::<char>::empty() =~= e);
        assert(unescape_str(Seq::<char>::empty()) == Some(Seq::<char>::empty()));
        assert(seq![c] + Seq::<char>::empty() =~= seq![c]);
    }
}

} // verus!
