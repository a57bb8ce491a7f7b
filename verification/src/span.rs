//! Byte-offset spans into the source map, and line/column positions.

use vstd::prelude::*;
use crate::text::{decimal, push_decimal};

verus! {

/// A region of source text, as the half-open byte range `lo..hi` of the
/// global offsets that the source map hands out.
#[derive(Clone, Copy, PartialEq, Eq, Structural, Debug)]
pub struct Span {
    pub lo: u32,
    pub hi: u32,
}

/// A position in a source file: the line counts from 1, the column is a
/// byte offset from the start of that line, from 0.
#[derive(Clone, Copy, PartialEq, Eq, Structural, Debug)]
pub struct LineColumn {
    pub line: usize,
    pub column: usize,
}

/// The span that `call_site`, `mixed_site` and `def_site` all give: the
/// empty range at offset 0, which lies in the dummy file of every source map.
pub open spec fn call_site_span() -> Span {
    Span { lo: 0, hi: 0 }
}

/// `a` saturating-plus `b` in `u32`.
pub open spec fn sat_add(a: u32, b: u32) -> u32 {
    if a + b > u32::MAX { u32::MAX } else { (a + b) as u32 }
}

/// `a` saturating-minus `b` in `u32`.
pub open spec fn sat_sub(a: u32, b: u32) -> u32 {
    if a < b { 0 } else { (a - b) as u32 }
}

pub open spec fn min_u32(a: u32, b: u32) -> u32 {
    if a <= b { a } else { b }
}

pub open spec fn max_u32(a: u32, b: u32) -> u32 {
    if a >= b { a } else { b }
}

/// The first byte of a span, as `first_byte` computes it.
pub open spec fn first_byte_span(s: Span) -> Span {
    Span { lo: s.lo, hi: min_u32(sat_add(s.lo, 1), s.hi) }
}

/// The last byte of a span, as `last_byte` computes it.
pub open spec fn last_byte_span(s: Span) -> Span {
    Span { lo: max_u32(sat_sub(s.hi, 1), s.lo), hi: s.hi }
}

/// `inner` lies within `outer`.
pub open spec fn span_within_spec(outer: Span, inner: Span) -> bool {
    inner.lo >= outer.lo && inner.hi <= outer.hi
}

impl Span {
    /// The span of the macro call site.
    pub fn call_site() -> (s: Span)
        ensures
            s == call_site_span(),
    {
        Span { lo: 0, hi: 0 }
    }

    /// The mixed-hygiene span; the same as the call site here.
    pub fn mixed_site() -> (s: Span)
        ensures
            s == call_site_span(),
    {
        Span::call_site()
    }

    /// The span of the macro definition site; the same as the call site here.
    pub fn def_site() -> (s: Span)
        ensures
            s == call_site_span(),
    {
        Span::call_site()
    }

    /// A span with the position of `self` and the resolution of `other`:
    /// with no hygiene information kept, that is `other`.
    pub fn resolved_at(&self, other: Span) -> (s: Span)
        ensures
            s == other,
    {
        other
    }

    /// A span with the resolution of `self` and the position of `other`:
    /// with no hygiene information kept, that is `self`.
    pub fn located_at(&self, _other: Span) -> (s: Span)
        ensures
            s == *self,
    {
        *self
    }

    /// The span of just the first byte of `self` (empty when `self` is).
    pub fn first_byte(self) -> (s: Span)
        ensures
            s == first_byte_span(self),
    {
        let next = self.lo.saturating_add(1);
        Span { lo: self.lo, hi: if next <= self.hi { next } else { self.hi } }
    }

    /// The span of just the last byte of `self` (empty when `self` is).
    pub fn last_byte(self) -> (s: Span)
        ensures
            s == last_byte_span(self),
    {
        let prev = self.hi.saturating_sub(1);
        Span { lo: if prev >= self.lo { prev } else { self.lo }, hi: self.hi }
    }
}

/// The debug rendering of a span: `bytes(lo..hi)`.
pub open spec fn span_debug(s: Span) -> Seq<char> {
    seq!['b', 'y', 't', 'e', 's', '('] + decimal(s.lo as nat) + seq!['.', '.'] + decimal(s.hi as nat)
        + seq![')']
}

impl Span {
    /// The debug rendering of this span: `bytes(lo..hi)`.
    pub fn debug_text(&self) -> (t: String)
        ensures
            t@ == span_debug(*self),
    {
        let mut t = "bytes(".to_owned();
        proof {
            reveal_strlit("bytes(");
            reveal_strlit("..");
            reveal_strlit(")");
        }
        push_decimal(&mut t, self.lo as u128);
        t.append("..");
        push_decimal(&mut t, self.hi as u128);
        t.append(")");
        assert(t@ =~= span_debug(*self));
        t
    }
}

/// The first and the last byte of a well-formed span lie within it, and each
/// covers at most one byte; they are empty only when the span is.
pub proof fn lemma_first_last_byte_within(s: Span)
    requires
        s.lo <= s.hi,
    ensures
        span_within_spec(s, first_byte_span(s)),
        span_within_spec(s, last_byte_span(s)),
        first_byte_span(s).lo <= first_byte_span(s).hi <= first_byte_span(s).lo + 1,
        last_byte_span(s).lo <= last_byte_span(s).hi <= last_byte_span(s).lo + 1,
        (first_byte_span(s).lo == first_byte_span(s).hi) <==> (s.lo == s.hi),
        (last_byte_span(s).lo == last_byte_span(s).hi) <==> (s.lo == s.hi),
{
}

} // verus!
