//! Identifiers: which strings may be identifiers (after Unicode UAX #31),
//! their construction, comparison and rendering.

use vstd::prelude::*;
use unicode_xid::UnicodeXID;
use crate::span::{span_debug, Span};
use crate::text::{chars_of, push_char};

verus! {

/// Whether `c` has the Unicode `XID_Start` property, as the `unicode-xid`
/// crate's tables say.
pub uninterp spec fn xid_start(c: char) -> bool;

/// Whether `c` has the Unicode `XID_Continue` property, as the `unicode-xid`
/// crate's tables say.
pub uninterp spec fn xid_continue(c: char) -> bool;

/// `UnicodeXID::is_xid_start` of the `unicode-xid` crate: its result is
/// the `XID_Start` table lookup, named `xid_start`; nothing more is claimed.
#[verifier::external_body]
fn unicode_is_xid_start(c: char) -> (b: bool)
    ensures
        b == xid_start(c),
{
    c.is_xid_start()
}

/// `UnicodeXID::is_xid_continue` of the `unicode-xid` crate: its result is
/// the `XID_Continue` table lookup, named `xid_continue`; nothing more is claimed.
#[verifier::external_body]
fn unicode_is_xid_continue(c: char) -> (b: bool)
    ensures
        b == xid_continue(c),
{
    c.is_xid_continue()
}

/// A character that may begin an identifier: an ASCII letter, `_`, or a
/// non-ASCII character with the `XID_Start` property.
pub open spec fn ident_start(c: char) -> bool {
    ('a' <= c && c <= 'z') || ('A' <= c && c <= 'Z') || c == '_' || (c > '\x7f' && xid_start(c))
}

/// A character that may continue an identifier: an ASCII letter or digit,
/// `_`, or a non-ASCII character with the `XID_Continue` property.
pub open spec fn ident_continue(c: char) -> bool {
    ('a' <= c && c <= 'z') || ('A' <= c && c <= 'Z') || c == '_' || ('0' <= c && c <= '9')
        || (c > '\x7f' && xid_continue(c))
}

/// A valid identifier: nonempty, a start character, then continue characters.
pub open spec fn valid_ident(s: Seq<char>) -> bool {
    &&& s.len() > 0
    &&& ident_start(s[0])
    &&& forall|i: int| 1 <= i < s.len() ==> ident_continue(#[trigger] s[i])
}

/// Every character is an ASCII digit.
pub open spec fn all_digits(s: Seq<char>) -> bool {
    forall|i: int| 0 <= i < s.len() ==> '0' <= #[trigger] s[i] && s[i] <= '9'
}

/// Why a string cannot be an identifier.
#[derive(Clone, Copy, PartialEq, Eq, Structural, Debug)]
pub enum IdentError {
    /// The string is empty.
    Empty,
    /// The string is a number, which belongs in a literal.
    Number,
    /// The string holds a character that an identifier cannot hold there.
    Invalid,
}

/// What `validate_ident` answers for `s`.
pub open spec fn ident_check(s: Seq<char>) -> Result<(), IdentError> {
    if s.len() == 0 {
        Err(IdentError::Empty)
    } else if all_digits(s) {
        Err(IdentError::Number)
    } else if !valid_ident(s) {
        Err(IdentError::Invalid)
    } else {
        Ok(())
    }
}

/// Whether `c` may begin an identifier.
pub fn is_ident_start(c: char) -> (b: bool)
    ensures
        b == ident_start(c),
{
    ('a' <= c && c <= 'z') || ('A' <= c && c <= 'Z') || c == '_' || (c > '\x7f'
        && unicode_is_xid_start(c))
}

/// Whether `c` may continue an identifier.
pub fn is_ident_continue(c: char) -> (b: bool)
    ensures
        b == ident_continue(c),
{
    ('a' <= c && c <= 'z') || ('A' <= c && c <= 'Z') || c == '_' || ('0' <= c && c <= '9') || (c
        > '\x7f' && unicode_is_xid_continue(c))
}

/// Checks that `string` may be an identifier, and otherwise says why not:
/// empty, a number, or holding a character out of place.
pub fn validate_ident(string: &str) -> (r: Result<(), IdentError>)
    ensures
        r == ident_check(string@),
        r is Ok <==> valid_ident(string@),
{
    let chars = chars_of(string);
    let n: usize = chars.len();
    if n == 0 {
        return Err(IdentError::Empty);
    }
    let mut digits = true;
    let mut i: usize = 0;
    while i < n
        invariant
            i <= n,
            n == chars@.len(),
            chars@ == string@,
            digits == forall|j: int| 0 <= j < i ==> '0' <= #[trigger] chars@[j] && chars@[j] <= '9',
        decreases n - i,
    {
        let c = chars[i];
        if !('0' <= c && c <= '9') {
            digits = false;
        }
        i = i + 1;
    }
    if digits {
        return Err(IdentError::Number);
    }
    if !is_ident_start(chars[0]) {
        return Err(IdentError::Invalid);
    }
    let mut k: usize = 1;
    while k < n
        invariant
            1 <= k <= n,
            n == chars@.len(),
            chars@ == string@,
            forall|j: int| 1 <= j < k ==> ident_continue(#[trigger] chars@[j]),
        decreases n - k,
    {
        if !is_ident_continue(chars[k]) {
            return Err(IdentError::Invalid);
        }
        k = k + 1;
    }
    Ok(())
}

/// An identifier, possibly raw (written with `r#`), with its span.
#[derive(Clone)]
pub struct Ident {
    sym: String,
    span: Span,
    raw: bool,
}

/// The abstract value of an identifier.
pub struct IdentModel {
    pub sym: Seq<char>,
    pub span: Span,
    pub raw: bool,
}

impl View for Ident {
    type V = IdentModel;

    closed spec fn view(&self) -> IdentModel {
        IdentModel { sym: self.sym@, span: self.span, raw: self.raw }
    }
}

/// The text of an identifier: its symbol, after `r#` when it is raw.
pub open spec fn ident_text(m: IdentModel) -> Seq<char> {
    if m.raw {
        seq!['r', '#'] + m.sym
    } else {
        m.sym
    }
}

/// The debug rendering of an identifier: `Ident { sym: .., span: .. }`.
pub open spec fn ident_debug(m: IdentModel) -> Seq<char> {
    seq!['I', 'd', 'e', 'n', 't', ' ', '{', ' ', 's', 'y', 'm', ':', ' '] + ident_text(m)
        + seq![',', ' ', 's', 'p', 'a', 'n', ':', ' '] + span_debug(m.span) + seq![' ', '}']
}

/// Whether an identifier equals a string, as `eq_str` decides: a raw
/// identifier equals `r#` followed by its symbol, a plain one its symbol.
pub open spec fn ident_eq_str(m: IdentModel, other: Seq<char>) -> bool {
    if m.raw {
        other.len() >= 2 && other[0] == 'r' && other[1] == '#' && m.sym == other.skip(2)
    } else {
        m.sym == other
    }
}

impl Ident {
    fn _new(string: &str, raw: bool, span: Span) -> (id: Ident)
        requires
            valid_ident(string@),
        ensures
            id@ == (IdentModel { sym: string@, span, raw }),
    {
        Ident { sym: string.to_owned(), span, raw }
    }

    /// A plain identifier; `string` must be a valid identifier.
    pub fn new(string: &str, span: Span) -> (id: Ident)
        requires
            valid_ident(string@),
        ensures
            id@ == (IdentModel { sym: string@, span, raw: false }),
    {
        Ident::_new(string, false, span)
    }

    /// A raw identifier (`r#string`); `string` must be a valid identifier.
    pub fn new_raw(string: &str, span: Span) -> (id: Ident)
        requires
            valid_ident(string@),
        ensures
            id@ == (IdentModel { sym: string@, span, raw: true }),
    {
        Ident::_new(string, true, span)
    }

    /// A plain or raw identifier, or the reason why `string` cannot be one.
    pub fn checked_new(string: &str, raw: bool, span: Span) -> (r: Result<Ident, IdentError>)
        ensures
            r is Ok <==> valid_ident(string@),
            r matches Ok(id) ==> id@ == (IdentModel { sym: string@, span, raw }),
            r matches Err(e) ==> ident_check(string@) == Err::<(), IdentError>(e),
    {
        match validate_ident(string) {
            Ok(()) => if raw {
                Ok(Ident::new_raw(string, span))
            } else {
                Ok(Ident::new(string, span))
            },
            Err(e) => Err(e),
        }
    }

    /// A copy of this identifier.
    pub fn duplicate(&self) -> (id: Ident)
        ensures
            id@ == self@,
    {
        Ident { sym: self.sym.clone(), span: self.span, raw: self.raw }
    }

    /// The span of this identifier.
    pub fn span(&self) -> (s: Span)
        ensures
            s == self@.span,
    {
        self.span
    }

    /// Replaces the span of this identifier.
    pub fn set_span(&mut self, span: Span)
        ensures
            final(self)@ == (IdentModel { span, ..old(self)@ }),
    {
        self.span = span;
    }

    /// Whether two identifiers have the same symbol and are both raw or both plain.
    pub fn eq_ident(&self, other: &Ident) -> (b: bool)
        ensures
            b == (self@.sym == other@.sym && self@.raw == other@.raw),
    {
        self.sym == other.sym && self.raw == other.raw
    }

    /// Whether this identifier is written as `other`.
    pub fn eq_str(&self, other: &str) -> (b: bool)
        ensures
            b == ident_eq_str(self@, other@),
    {
        let o = chars_of(other);
        let s = chars_of(self.sym.as_str());
        let skip: usize = if self.raw {
            if o.len() >= 2 && o[0] == 'r' && o[1] == '#' {
                2
            } else {
                return false;
            }
        } else {
            0
        };
        if o.len() - skip != s.len() {
            proof {
                assert(o@.skip(skip as int).len() != s@.len());
            }
            return false;
        }
        let n: usize = s.len();
        let mut i: usize = 0;
        while i < n
            invariant
                i <= n,
                n == s@.len(),
                o@.len() == skip + n,
                o.len() == skip + n,
                o@ == other@,
                s@ == self@.sym,
                skip == (if self@.raw { 2usize } else { 0usize }),
                self@.raw ==> o@.len() >= 2 && o@[0] == 'r' && o@[1] == '#',
                forall|j: int| 0 <= j < i ==> s@[j] == #[trigger] o@[skip + j],
            decreases n - i,
        {
            if s[i] != o[skip + i] {
                proof {
                    assert(o@.skip(skip as int)[i as int] == o@[skip + i]);
                }
                return false;
            }
            i = i + 1;
        }
        proof {
            assert forall|j: int| 0 <= j < n implies o@.skip(skip as int)[j] == s@[j] by {
                assert(s@[j] == o@[skip + j]);
            }
            assert(o@.skip(skip as int) =~= s@);
            assert(o@.skip(0) =~= o@);
        }
        true
    }

    /// The debug rendering of this identifier: its text and its span.
    pub fn debug_text(&self) -> (t: String)
        ensures
            t@ == ident_debug(self@),
    {
        let mut t = "Ident { sym: ".to_owned();
        proof {
            reveal_strlit("Ident { sym: ");
            reveal_strlit(", span: ");
            reveal_strlit(" }");
        }
        let sym = self.to_text();
        t.append(sym.as_str());
        t.append(", span: ");
        let sp = self.span.debug_text();
        t.append(sp.as_str());
        t.append(" }");
        assert(t@ =~= ident_debug(self@));
        t
    }

    /// The text of this identifier: its symbol, after `r#` when it is raw.
    pub fn to_text(&self) -> (t: String)
        ensures
            t@ == ident_text(self@),
    {
        let mut t = String::new();
        if self.raw {
            push_char(&mut t, 'r');
            push_char(&mut t, '#');
        }
        t.append(self.sym.as_str());
        t
    }
}

/// An identifier equals a string exactly when the string is written as the
/// identifier: `r#` then the symbol for a raw one, the symbol alone for a
/// plain one; so an equal string has the symbol's length, plus two when raw.
pub proof fn lemma_eq_str_exact(m: IdentModel, other: Seq<char>)
    ensures
        ident_eq_str(m, other) <==> other == (if m.raw { seq!['r', '#'] + m.sym } else { m.sym }),
        ident_eq_str(m, other) ==> other.len() == m.sym.len() + (if m.raw { 2int } else { 0int }),
{
    if m.raw {
        if ident_eq_str(m, other) {
            assert(other =~= seq!['r', '#'] + m.sym);
        }
        if other == seq!['r', '#'] + m.sym {
            assert(other.skip(2) =~= m.sym);
        }
    }
}

/// ASCII characters that may start an identifier are exactly the letters
/// of either case and `_`; those that may continue one are these and the
/// digits.
pub proof fn lemma_ascii_ident_chars(c: char)
    requires
        (c as int) < 0x80,
    ensures
        ident_start(c) <==> (('a' <= c && c <= 'z') || ('A' <= c && c <= 'Z') || c == '_'),
        ident_continue(c) <==> (('a' <= c && c <= 'z') || ('A' <= c && c <= 'Z') || ('0' <= c && c <= '9')
            || c == '_'),
{
}

/// An ASCII string is a valid identifier exactly when it is nonempty,
/// starts with a letter of either case or `_`, and goes on with letters,
/// digits and `_`.
pub proof fn lemma_ascii_valid_ident(s: Seq<char>)
    requires
        forall|i: int| 0 <= i < s.len() ==> (#[trigger] s[i] as int) < 0x80,
    ensures
        valid_ident(s) <==> {
            &&& s.len() > 0
            &&& ('a' <= s[0] && s[0] <= 'z') || ('A' <= s[0] && s[0] <= 'Z') || s[0] == '_'
            &&& forall|i: int| 1 <= i < s.len() ==> ('a' <= #[trigger] s[i] && s[i] <= 'z') || ('A' <= s[i]
                && s[i] <= 'Z') || ('0' <= s[i] && s[i] <= '9') || s[i] == '_'
        },
{
    if s.len() > 0 {
        lemma_ascii_ident_chars(s[0]);
        assert forall|i: int| 1 <= i < s.len() implies ident_continue(#[trigger] s[i]) <==> (('a' <= s[i] && s[i]
            <= 'z') || ('A' <= s[i] && s[i] <= 'Z') || ('0' <= s[i] && s[i] <= '9') || s[i] == '_') by {
            lemma_ascii_ident_chars(s[i]);
        }
    }
}

/// An identifier equals its own text, and a raw one never equals its bare symbol.
pub proof fn lemma_ident_eq_own_text(m: IdentModel)
    ensures
        ident_eq_str(m, ident_text(m)),
        m.raw && valid_ident(m.sym) ==> !ident_eq_str(m, m.sym),
{
    if m.raw {
        assert((seq!['r', '#'] + m.sym).skip(2) =~= m.sym);
        if valid_ident(m.sym) && ident_eq_str(m, m.sym) {
            assert(m.sym.len() == m.sym.len() - 2);
        }
    }
}

} // verus!
