//! Token trees and token streams: punctuation, groups, and the rendering
//! of a stream as source text.

use vstd::prelude::*;
use crate::ident::{ident_text, Ident, IdentModel};
use crate::literal::{Literal, LiteralModel};
use crate::span::{call_site_span, first_byte_span, last_byte_span, Span};
use crate::text::push_char;

verus! {

/// The delimiters of a group.
#[derive(Clone, Copy, PartialEq, Eq, Structural, Debug)]
pub enum Delimiter {
    /// `( ... )`
    Parenthesis,
    /// `{ ... }`
    Brace,
    /// `[ ... ]`
    Bracket,
    /// A group without visible delimiters (`None` in the standard API).
    Invisible,
}

/// Whether a punctuation character is followed directly by another one.
#[derive(Clone, Copy, PartialEq, Eq, Structural, Debug)]
pub enum Spacing {
    /// Followed by whitespace or by a token that is not punctuation.
    Alone,
    /// Followed directly by punctuation, as the `+` of `+=`.
    Joint,
}

/// A single punctuation character with its spacing and span.
#[derive(Clone, Copy)]
pub struct Punct {
    ch: char,
    spacing: Spacing,
    span: Span,
}

/// A delimited token stream with its span.
pub struct Group {
    delimiter: Delimiter,
    stream: TokenStream,
    span: Span,
}

/// One token tree: a group, an identifier, a punctuation character or a literal.
pub enum TokenTree {
    Group(Group),
    Ident(Ident),
    Punct(Punct),
    Literal(Literal),
}

/// A sequence of token trees.
pub struct TokenStream {
    pub(crate) inner: Vec<TokenTree>,
}

/// The abstract value of a punctuation token.
pub struct PunctModel {
    pub ch: char,
    pub spacing: Spacing,
    pub span: Span,
}

/// The abstract value of a group.
pub struct GroupModel {
    pub delimiter: Delimiter,
    pub stream: Seq<TreeView>,
    pub span: Span,
}

/// The abstract value of a token tree.
pub enum TreeView {
    Group(GroupModel),
    Ident(IdentModel),
    Punct(PunctModel),
    Literal(LiteralModel),
}

impl View for Punct {
    type V = PunctModel;

    closed spec fn view(&self) -> PunctModel {
        PunctModel { ch: self.ch, spacing: self.spacing, span: self.span }
    }
}

/// The abstract value of a token tree.
pub closed spec fn tree_view(t: TokenTree) -> TreeView
    decreases t,
{
    match t {
        TokenTree::Group(g) => TreeView::Group(
            GroupModel { delimiter: g.delimiter, stream: trees_view(g.stream.inner@), span: g.span },
        ),
        TokenTree::Ident(i) => TreeView::Ident(i@),
        TokenTree::Punct(p) => TreeView::Punct(p@),
        TokenTree::Literal(l) => TreeView::Literal(l@),
    }
}

/// The abstract values of a sequence of token trees.
pub closed spec fn trees_view(s: Seq<TokenTree>) -> Seq<TreeView>
    decreases s,
{
    if s.len() == 0 {
        seq![]
    } else {
        trees_view(s.subrange(0, s.len() - 1)).push(tree_view(s[s.len() - 1]))
    }
}

impl View for TokenStream {
    type V = Seq<TreeView>;

    closed spec fn view(&self) -> Seq<TreeView> {
        trees_view(self.inner@)
    }
}

impl View for Group {
    type V = GroupModel;

    closed spec fn view(&self) -> GroupModel {
        GroupModel { delimiter: self.delimiter, stream: self.stream@, span: self.span }
    }
}

impl View for TokenTree {
    type V = TreeView;

    closed spec fn view(&self) -> TreeView {
        tree_view(*self)
    }
}

/// The abstract values of a sequence of token trees, one by one.
pub open spec fn views_of(trees: Seq<TokenTree>) -> Seq<TreeView> {
    trees.map_values(|t: TokenTree| t@)
}

/// The abstract value of a token tree is that of the group, identifier,
/// punctuation character or literal it holds.
pub proof fn lemma_tree_view(t: TokenTree)
    ensures
        match t {
            TokenTree::Group(g) => t@ == TreeView::Group(g@),
            TokenTree::Ident(i) => t@ == TreeView::Ident(i@),
            TokenTree::Punct(p) => t@ == TreeView::Punct(p@),
            TokenTree::Literal(l) => t@ == TreeView::Literal(l@),
        },
{
}

/// The abstract value of a stream lists the values of its trees.
proof fn lemma_trees_view_of(s: Seq<TokenTree>)
    ensures
        trees_view(s) == views_of(s),
{
    lemma_trees_view(s);
    assert(trees_view(s) =~= views_of(s));
}

/// `trees_view` maps each tree to its abstract value.
pub proof fn lemma_trees_view(s: Seq<TokenTree>)
    ensures
        trees_view(s).len() == s.len(),
        forall|i: int| 0 <= i < s.len() ==> #[trigger] trees_view(s)[i] == tree_view(s[i]),
    decreases s.len(),
{
    if s.len() > 0 {
        lemma_trees_view(s.subrange(0, s.len() - 1));
    }
}

/// The abstract values of a concatenation are the concatenation of the values.
pub proof fn lemma_trees_view_concat(a: Seq<TokenTree>, b: Seq<TokenTree>)
    ensures
        trees_view(a + b) == trees_view(a) + trees_view(b),
{
    lemma_trees_view(a);
    lemma_trees_view(b);
    lemma_trees_view(a + b);
    assert(trees_view(a + b) =~= trees_view(a) + trees_view(b));
}

/// The opening delimiter's text.
pub open spec fn open_text(d: Delimiter) -> Seq<char> {
    match d {
        Delimiter::Parenthesis => seq!['('],
        Delimiter::Brace => seq!['{'],
        Delimiter::Bracket => seq!['['],
        Delimiter::Invisible => seq![],
    }
}

/// The closing delimiter's text.
pub open spec fn close_text(d: Delimiter) -> Seq<char> {
    match d {
        Delimiter::Parenthesis => seq![')'],
        Delimiter::Brace => seq!['}'],
        Delimiter::Bracket => seq![']'],
        Delimiter::Invisible => seq![],
    }
}

/// A punctuation character that joins the next token.
pub open spec fn is_joint(t: TreeView) -> bool {
    t matches TreeView::Punct(p) && p.spacing == Spacing::Joint
}

/// What stands between a token and the one before it: nothing after a
/// joint punctuation character, else one space.
pub open spec fn separator_after(prev: TreeView) -> Seq<char> {
    if is_joint(prev) {
        seq![]
    } else {
        seq![' ']
    }
}

/// The text of a token tree inside a stream: a group puts a space inside
/// each delimiter, an empty group a single space between them.
pub open spec fn tree_text(t: TreeView) -> Seq<char>
    decreases t,
{
    match t {
        TreeView::Group(g) => if g.stream.len() == 0 {
            open_text(g.delimiter) + seq![' '] + close_text(g.delimiter)
        } else {
            open_text(g.delimiter) + seq![' '] + stream_text(g.stream) + seq![' '] + close_text(
                g.delimiter,
            )
        },
        TreeView::Ident(m) => ident_text(m),
        TreeView::Punct(p) => seq![p.ch],
        TreeView::Literal(m) => m.text,
    }
}

/// The text of a token stream: the tokens' texts, each after the separator
/// that the token before it asks for.
pub open spec fn stream_text(s: Seq<TreeView>) -> Seq<char>
    decreases s,
{
    if s.len() == 0 {
        seq![]
    } else if s.len() == 1 {
        tree_text(s[0])
    } else {
        stream_text(s.subrange(0, s.len() - 1)) + separator_after(s[s.len() - 2]) + tree_text(
            s[s.len() - 1],
        )
    }
}

/// The text of a group on its own: its stream between its delimiters.
pub open spec fn group_text(g: GroupModel) -> Seq<char> {
    open_text(g.delimiter) + stream_text(g.stream) + close_text(g.delimiter)
}

/// The concatenation of the values of several streams.
pub open spec fn concat_views(s: Seq<Seq<TreeView>>) -> Seq<TreeView>
    decreases s.len(),
{
    if s.len() == 0 {
        seq![]
    } else {
        concat_views(s.drop_last()) + s.last()
    }
}

/// The text of a stream followed by more tokens: the first part's text,
/// the separator its last token asks for, then the rest's text.
pub proof fn lemma_stream_text_concat(a: Seq<TreeView>, b: Seq<TreeView>)
    requires
        a.len() > 0,
        b.len() > 0,
    ensures
        stream_text(a + b) == stream_text(a) + separator_after(a.last()) + stream_text(b),
    decreases b.len(),
{
    let ab = a + b;
    if b.len() == 1 {
        assert(ab.subrange(0, ab.len() - 1) =~= a);
    } else {
        let b1 = b.subrange(0, b.len() - 1);
        lemma_stream_text_concat(a, b1);
        assert(ab.subrange(0, ab.len() - 1) =~= a + b1);
        assert(ab[ab.len() - 2] == b1.last());
    }
}

/// A stream of one token reads as that token, and a group without visible
/// delimiters reads as its stream.
pub proof fn lemma_single_and_invisible(t: TreeView, g: GroupModel)
    requires
        g.delimiter == Delimiter::Invisible,
    ensures
        stream_text(seq![t]) == tree_text(t),
        group_text(g) == stream_text(g.stream),
{
    assert(seq![t][0] == t);
    assert(open_text(g.delimiter) + stream_text(g.stream) + close_text(g.delimiter) =~= stream_text(g.stream));
}

fn push_open(out: &mut String, d: Delimiter)
    ensures
        final(out)@ == old(out)@ + open_text(d),
{
    let ghost start = out@;
    match d {
        Delimiter::Parenthesis => push_char(out, '('),
        Delimiter::Brace => push_char(out, '{'),
        Delimiter::Bracket => push_char(out, '['),
        Delimiter::Invisible => {},
    }
    assert(out@ =~= start + open_text(d));
}

fn push_close(out: &mut String, d: Delimiter)
    ensures
        final(out)@ == old(out)@ + close_text(d),
{
    let ghost start = out@;
    match d {
        Delimiter::Parenthesis => push_char(out, ')'),
        Delimiter::Brace => push_char(out, '}'),
        Delimiter::Bracket => push_char(out, ']'),
        Delimiter::Invisible => {},
    }
    assert(out@ =~= start + close_text(d));
}

fn write_tree(t: &TokenTree, out: &mut String)
    ensures
        final(out)@ == old(out)@ + tree_text(tree_view(*t)),
    decreases *t,
{
    let ghost start = out@;
    match t {
        TokenTree::Group(g) => {
            push_open(out, g.delimiter);
            push_char(out, ' ');
            if g.stream.inner.len() == 0 {
                push_close(out, g.delimiter);
                proof {
                    lemma_trees_view(g.stream.inner@);
                }
            } else {
                write_trees(&g.stream.inner, out);
                push_char(out, ' ');
                push_close(out, g.delimiter);
                proof {
                    lemma_trees_view(g.stream.inner@);
                }
            }
        },
        TokenTree::Ident(i) => {
            let text = i.to_text();
            out.append(text.as_str());
        },
        TokenTree::Punct(p) => {
            push_char(out, p.ch);
        },
        TokenTree::Literal(l) => {
            let text = l.to_text();
            out.append(text.as_str());
        },
    }
    assert(out@ =~= start + tree_text(tree_view(*t)));
}

fn write_trees(trees: &Vec<TokenTree>, out: &mut String)
    ensures
        final(out)@ == old(out)@ + stream_text(trees_view(trees@)),
    decreases trees@,
{
    let ghost start = out@;
    let n: usize = trees.len();
    let mut joint = false;
    let mut i: usize = 0;
    proof {
        lemma_trees_view(trees@);
    }
    while i < n
        invariant
            i <= n,
            n == trees@.len(),
            trees_view(trees@).len() == n,
            forall|k: int| 0 <= k < n ==> #[trigger] trees_view(trees@)[k] == tree_view(trees@[k]),
            joint == (i > 0 && is_joint(tree_view(trees@[i - 1]))),
            out@ == start + stream_text(trees_view(trees@).take(i as int)),
        decreases n - i,
    {
        let ghost v = trees_view(trees@);
        if i != 0 && !joint {
            push_char(out, ' ');
        }
        joint = false;
        let t = &trees[i];
        proof {
            assert(decreases_to!(trees@ => trees@[i as int]));
        }
        write_tree(t, out);
        match t {
            TokenTree::Punct(p) => {
                match p.spacing {
                    Spacing::Alone => {},
                    Spacing::Joint => {
                        joint = true;
                    },
                }
            },
            _ => {},
        }
        proof {
            let pre = v.take(i as int);
            let post = v.take(i + 1);
            if i == 0 {
                assert(post =~= seq![v[0]]);
                assert(out@ =~= start + stream_text(post));
            } else {
                assert(post.subrange(0, post.len() - 1) =~= pre);
                assert(post[post.len() - 2] == v[i - 1]);
                assert(post[post.len() - 1] == v[i as int]);
                assert(out@ =~= start + stream_text(post));
            }
        }
        i = i + 1;
    }
    assert(trees_view(trees@).take(n as int) =~= trees_view(trees@));
}

fn duplicate_tree(t: &TokenTree) -> (r: TokenTree)
    ensures
        tree_view(r) == tree_view(*t),
    decreases *t,
{
    match t {
        TokenTree::Group(g) => {
            let inner = duplicate_trees(&g.stream.inner);
            TokenTree::Group(
                Group { delimiter: g.delimiter, stream: TokenStream { inner }, span: g.span },
            )
        },
        TokenTree::Ident(i) => TokenTree::Ident(i.duplicate()),
        TokenTree::Punct(p) => TokenTree::Punct(*p),
        TokenTree::Literal(l) => TokenTree::Literal(l.duplicate()),
    }
}

fn duplicate_trees(trees: &Vec<TokenTree>) -> (r: Vec<TokenTree>)
    ensures
        trees_view(r@) == trees_view(trees@),
    decreases trees@,
{
    let n: usize = trees.len();
    let mut r: Vec<TokenTree> = Vec::new();
    let mut i: usize = 0;
    proof {
        lemma_trees_view(trees@);
    }
    while i < n
        invariant
            i <= n,
            n == trees@.len(),
            r@.len() == i,
            forall|k: int| 0 <= k < i ==> #[trigger] tree_view(r@[k]) == tree_view(trees@[k]),
        decreases n - i,
    {
        proof {
            assert(decreases_to!(trees@ => trees@[i as int]));
        }
        let t = duplicate_tree(&trees[i]);
        r.push(t);
        i = i + 1;
    }
    proof {
        lemma_trees_view(r@);
        assert(trees_view(r@) =~= trees_view(trees@));
    }
    r
}

impl Punct {
    /// A punctuation character with the given spacing, at the call site.
    pub fn new(ch: char, spacing: Spacing) -> (p: Punct)
        ensures
            p@ == (PunctModel { ch, spacing, span: call_site_span() }),
    {
        Punct { ch, spacing, span: Span::call_site() }
    }

    /// The punctuation character.
    pub fn as_char(&self) -> (c: char)
        ensures
            c == self@.ch,
    {
        self.ch
    }

    /// The spacing of the character.
    pub fn spacing(&self) -> (sp: Spacing)
        ensures
            sp == self@.spacing,
    {
        self.spacing
    }

    /// The span of the character.
    pub fn span(&self) -> (s: Span)
        ensures
            s == self@.span,
    {
        self.span
    }

    /// Replaces the span of the character.
    pub fn set_span(&mut self, span: Span)
        ensures
            final(self)@ == (PunctModel { span, ..old(self)@ }),
    {
        self.span = span;
    }
}

impl TokenTree {
    /// A copy of this token tree.
    pub fn duplicate(&self) -> (t: TokenTree)
        ensures
            t@ == self@,
    {
        duplicate_tree(self)
    }

    /// The text of this token tree as it stands inside a stream.
    pub fn to_text(&self) -> (t: String)
        ensures
            t@ == tree_text(self@),
    {
        let mut t = String::new();
        write_tree(self, &mut t);
        t
    }
}

impl TokenStream {
    /// The empty stream.
    pub fn new() -> (s: TokenStream)
        ensures
            s@ == Seq::<TreeView>::empty(),
    {
        TokenStream { inner: Vec::new() }
    }

    /// Whether the stream holds no token.
    pub fn is_empty(&self) -> (b: bool)
        ensures
            b == (self@.len() == 0),
    {
        proof {
            lemma_trees_view(self.inner@);
        }
        self.inner.len() == 0
    }

    /// The stream of one token tree.
    pub fn from_tree(tree: TokenTree) -> (s: TokenStream)
        ensures
            s@ == seq![tree@],
    {
        let mut inner: Vec<TokenTree> = Vec::new();
        inner.push(tree);
        proof {
            lemma_trees_view(inner@);
            assert(trees_view(inner@) =~= seq![tree_view(inner@[0])]);
        }
        TokenStream { inner }
    }

    /// The stream of the given token trees, in order.
    pub fn from_trees(trees: Vec<TokenTree>) -> (s: TokenStream)
        ensures
            s@ == views_of(trees@),
    {
        proof {
            lemma_trees_view_of(trees@);
        }
        TokenStream { inner: trees }
    }

    /// The concatenation of the given streams, in order.
    pub fn from_streams(streams: Vec<TokenStream>) -> (s: TokenStream)
        ensures
            s@ == concat_views(streams@.map_values(|t: TokenStream| t@)),
    {
        let mut s = TokenStream::new();
        s.extend_streams(streams);
        proof {
            assert(Seq::<TreeView>::empty() + s@ =~= s@);
        }
        s
    }

    /// Appends the given token trees, in order.
    pub fn extend_trees(&mut self, trees: Vec<TokenTree>)
        ensures
            final(self)@ == old(self)@ + views_of(trees@),
    {
        proof {
            lemma_trees_view_of(trees@);
        }
        let mut trees = trees;
        let ghost a = self.inner@;
        let ghost b = trees@;
        self.inner.append(&mut trees);
        proof {
            lemma_trees_view_concat(a, b);
        }
    }

    /// Appends the tokens of each of the given streams, in order.
    pub fn extend_streams(&mut self, streams: Vec<TokenStream>)
        ensures
            final(self)@ == old(self)@ + concat_views(streams@.map_values(|t: TokenStream| t@)),
    {
        let ghost start = self@;
        let ghost views = streams@.map_values(|t: TokenStream| t@);
        let mut streams = streams;
        let n: usize = streams.len();
        let mut rest: Vec<TokenStream> = Vec::new();
        // Take the streams out from the back, then append them from the front.
        while streams.len() > 0
            invariant
                streams@.len() + rest@.len() == n,
                n == views.len(),
                forall|k: int| 0 <= k < streams@.len() ==> #[trigger] streams@[k]@ == views[k],
                forall|k: int| 0 <= k < rest@.len() ==> #[trigger] rest@[k]@ == views[n - 1 - k],
            decreases streams@.len(),
        {
            let t = streams.pop().unwrap();
            rest.push(t);
        }
        let mut i: usize = 0;
        while rest.len() > 0
            invariant
                rest@.len() + i == n,
                n == views.len(),
                forall|k: int| 0 <= k < rest@.len() ==> #[trigger] rest@[k]@ == views[n - 1 - k],
                self@ == start + concat_views(views.take(i as int)),
            decreases rest@.len(),
        {
            let t = rest.pop().unwrap();
            let ghost tv = t@;
            let mut inner = t.inner;
            let ghost b = inner@;
            let ghost a = self.inner@;
            self.inner.append(&mut inner);
            proof {
                lemma_trees_view_concat(a, b);
                assert(tv == views[i as int]);
                assert(views.take(i + 1).drop_last() =~= views.take(i as int));
                assert(concat_views(views.take(i + 1)) == concat_views(views.take(i as int)) + views[i as int]);
                assert(self@ =~= start + concat_views(views.take(i + 1)));
            }
            i = i + 1;
        }
        proof {
            assert(views.take(n as int) =~= views);
        }
    }

    /// The token trees of the stream, in order.
    pub fn into_trees(self) -> (trees: Vec<TokenTree>)
        ensures
            views_of(trees@) == self@,
    {
        proof {
            lemma_trees_view_of(self.inner@);
        }
        self.inner
    }

    /// A copy of this stream.
    pub fn duplicate(&self) -> (s: TokenStream)
        ensures
            s@ == self@,
    {
        TokenStream { inner: duplicate_trees(&self.inner) }
    }

    /// The source text of this stream: each token's text, separated by one
    /// space except after a joint punctuation character; each group with a
    /// space inside each of its delimiters.
    pub fn to_text(&self) -> (t: String)
        ensures
            t@ == stream_text(self@),
    {
        let mut t = String::new();
        write_trees(&self.inner, &mut t);
        t
    }
}

impl Group {
    /// A group of `stream` between `delimiter`s, at the call site.
    pub fn new(delimiter: Delimiter, stream: TokenStream) -> (g: Group)
        ensures
            g@ == (GroupModel { delimiter, stream: stream@, span: call_site_span() }),
    {
        Group { delimiter, stream, span: Span::call_site() }
    }

    /// The delimiter of the group.
    pub fn delimiter(&self) -> (d: Delimiter)
        ensures
            d == self@.delimiter,
    {
        self.delimiter
    }

    /// A copy of the stream inside the group.
    pub fn stream(&self) -> (s: TokenStream)
        ensures
            s@ == self@.stream,
    {
        self.stream.duplicate()
    }

    /// The span of the whole group.
    pub fn span(&self) -> (s: Span)
        ensures
            s == self@.span,
    {
        self.span
    }

    /// The span of the opening delimiter: the first byte of the group's span.
    pub fn span_open(&self) -> (s: Span)
        ensures
            s == first_byte_span(self@.span),
    {
        self.span.first_byte()
    }

    /// The span of the closing delimiter: the last byte of the group's span.
    pub fn span_close(&self) -> (s: Span)
        ensures
            s == last_byte_span(self@.span),
    {
        self.span.last_byte()
    }

    /// Replaces the span of the group.
    pub fn set_span(&mut self, span: Span)
        ensures
            final(self)@ == (GroupModel { span, ..old(self)@ }),
    {
        self.span = span;
    }

    /// The text of the group on its own: its stream between its delimiters.
    pub fn to_text(&self) -> (t: String)
        ensures
            t@ == group_text(self@),
    {
        let mut t = String::new();
        push_open(&mut t, self.delimiter);
        write_trees(&self.stream.inner, &mut t);
        push_close(&mut t, self.delimiter);
        t
    }
}

} // verus!
