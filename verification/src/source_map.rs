//! The source map: every parsed string is registered as a file that owns a
//! disjoint range of global byte offsets, with the offsets of its line
//! starts, so that spans can be turned back into lines and columns.

use vstd::prelude::*;
use vstd::string::StringSliceAdditionalSpecFns;
use crate::span::{
    call_site_span, max_u32, min_u32, span_within_spec, LineColumn, Span,
};
use crate::text::{decimal, push_char, push_decimal};

verus! {

/// A source string registered in the source map.
pub struct FileInfo {
    pub name: String,
    pub span: Span,
    /// Byte offsets, relative to `span.lo`, at which the lines of the file start.
    pub lines: Vec<usize>,
}

/// The source map: the registered files, in the order of their spans.
pub struct SourceMap {
    pub files: Vec<FileInfo>,
}

/// The name of a source file, as `Span::source_file` reports it.
pub struct SourceFile {
    path: String,
}

/// A position in a string being tokenized: the rest of the input and the
/// global offset of its first byte.
pub struct Cursor<'a> {
    pub rest: &'a str,
    pub off: u32,
}

/// Line-start offsets of a file of `len` bytes: the first line starts at 0,
/// the starts increase strictly, and none lies past the end of the file.
pub open spec fn lines_wf(lines: Seq<usize>, len: int) -> bool {
    &&& lines.len() >= 1
    &&& lines[0] == 0
    &&& forall|i: int, j: int| 0 <= i < j < lines.len() ==> lines[i] < lines[j]
    &&& forall|i: int| 0 <= i < lines.len() ==> lines[i] <= len
}

/// The offsets just past each newline byte (`\n`) of `bytes`, in order.
pub open spec fn newline_ends(bytes: Seq<u8>) -> Seq<usize>
    decreases bytes.len(),
{
    if bytes.len() == 0 {
        seq![]
    } else {
        let rest = newline_ends(bytes.drop_last());
        if bytes.last() == 10u8 {
            rest.push(bytes.len() as usize)
        } else {
            rest
        }
    }
}

/// The offsets at which the lines of `bytes` start: 0, then just past each newline.
pub open spec fn line_starts(bytes: Seq<u8>) -> Seq<usize> {
    seq![0usize] + newline_ends(bytes)
}

/// The largest index below `k` whose line start is at or before `rel`, or -1.
pub open spec fn last_le(lines: Seq<usize>, rel: int, k: int) -> int
    decreases k,
{
    if k <= 0 {
        -1
    } else if lines[k - 1] <= rel {
        k - 1
    } else {
        last_le(lines, rel, k - 1)
    }
}

/// The line and column of the byte at offset `rel` of a file whose lines
/// start at `lines`: the line is the last one that starts at or before `rel`.
pub open spec fn line_column(lines: Seq<usize>, rel: int) -> LineColumn {
    let a = last_le(lines, rel, lines.len() as int);
    LineColumn { line: (a + 1) as usize, column: (rel - lines[a]) as usize }
}

/// The first index from `i` on of a file that contains `span`, or `files.len()`.
pub open spec fn file_index_from(files: Seq<FileInfo>, span: Span, i: int) -> int
    decreases files.len() - i,
{
    if i < 0 || i >= files.len() {
        files.len() as int
    } else if span_within_spec(files[i].span, span) {
        i
    } else {
        file_index_from(files, span, i + 1)
    }
}

/// The index of the first file that contains `span`, or `files.len()` if none does.
pub open spec fn file_index(files: Seq<FileInfo>, span: Span) -> int {
    file_index_from(files, span, 0)
}

/// What `Span::join` gives: `None` unless `other` lies in the file of `span`,
/// else the smallest span that covers both.
pub open spec fn join_spec(files: Seq<FileInfo>, span: Span, other: Span) -> Option<Span> {
    if span_within_spec(files[file_index(files, span)].span, other) {
        Some(Span { lo: min_u32(span.lo, other.lo), hi: max_u32(span.hi, other.hi) })
    } else {
        None
    }
}

/// The name that `get_cursor` gives the `n`-th parsed string.
pub open spec fn parsed_string_name(n: nat) -> Seq<char> {
    seq!['<', 'p', 'a', 'r', 's', 'e', 'd', ' ', 's', 't', 'r', 'i', 'n', 'g', ' '] + decimal(n) + seq!['>']
}

impl FileInfo {
    /// The file's span is well formed and its line starts lie within it, in order.
    pub open spec fn wf(&self) -> bool {
        &&& self.span.lo <= self.span.hi
        &&& lines_wf(self.lines@, self.span.hi - self.span.lo)
    }

    /// The line and column of the global byte offset `offset` of this file.
    pub fn offset_line_column(&self, offset: usize) -> (lc: LineColumn)
        requires
            self.wf(),
            self.span.lo <= offset <= self.span.hi,
        ensures
            lc == line_column(self.lines@, offset - self.span.lo),
    {
        let rel: usize = offset - self.span.lo as usize;
        let len: usize = self.lines.len();
        let mut lo: usize = 0;
        let mut hi: usize = len;
        while hi - lo > 1
            invariant
                lo < hi <= len,
                len == self.lines@.len(),
                self.lines@[lo as int] <= rel,
                hi == len || self.lines@[hi as int] > rel,
            decreases hi - lo,
        {
            let mid: usize = lo + (hi - lo) / 2;
            if self.lines[mid] <= rel {
                lo = mid;
            } else {
                hi = mid;
            }
        }
        proof {
            lemma_last_le(self.lines@, rel as int, lo as int, len as int);
        }
        LineColumn { line: lo + 1, column: rel - self.lines[lo] }
    }

    /// `span` lies within this file.
    pub fn span_within(&self, span: Span) -> (b: bool)
        ensures
            b == span_within_spec(self.span, span),
    {
        span.lo >= self.span.lo && span.hi <= self.span.hi
    }
}

/// In increasing line starts, the last start at or before `rel` is the one
/// followed by a start after `rel`, or by none.
proof fn lemma_last_le(lines: Seq<usize>, rel: int, a: int, k: int)
    requires
        forall|i: int, j: int| 0 <= i < j < lines.len() ==> lines[i] < lines[j],
        0 <= a < k <= lines.len(),
        lines[a] <= rel,
        a + 1 == lines.len() || lines[a + 1] > rel,
    ensures
        last_le(lines, rel, k) == a,
    decreases k,
{
    if k > a + 1 {
        assert(lines[a + 1] <= lines[k - 1]);
        lemma_last_le(lines, rel, a, k - 1);
    }
}

/// The offsets just past the newlines of `bytes` lie in `1..=len` and increase strictly.
proof fn lemma_newline_ends(bytes: Seq<u8>)
    requires
        bytes.len() <= usize::MAX,
    ensures
        forall|i: int| 0 <= i < newline_ends(bytes).len() ==> 1 <= #[trigger] newline_ends(bytes)[i] <= bytes.len(),
        forall|i: int, j: int| 0 <= i < j < newline_ends(bytes).len() ==> newline_ends(bytes)[i] < newline_ends(bytes)[j],
    decreases bytes.len(),
{
    if bytes.len() > 0 {
        let rest = newline_ends(bytes.drop_last());
        lemma_newline_ends(bytes.drop_last());
        if bytes.last() == 10u8 {
            let ne = rest.push(bytes.len() as usize);
            assert(newline_ends(bytes) == ne);
            assert forall|i: int, j: int| 0 <= i < j < ne.len() implies ne[i] < ne[j] by {
                if j == rest.len() {
                    assert(ne[i] == rest[i]);
                }
            }
        } else {
            assert(newline_ends(bytes) == rest);
        }
    }
}

/// The line starts of a text are well formed for its length.
pub proof fn lemma_line_starts_wf(bytes: Seq<u8>)
    requires
        bytes.len() <= usize::MAX,
    ensures
        lines_wf(line_starts(bytes), bytes.len() as int),
{
    lemma_newline_ends(bytes);
    let ls = line_starts(bytes);
    let ne = newline_ends(bytes);
    assert forall|i: int, j: int| 0 <= i < j < ls.len() implies ls[i] < ls[j] by {
        if i == 0 {
            assert(ls[j] == ne[j - 1]);
        } else {
            assert(ls[i] == ne[i - 1] && ls[j] == ne[j - 1]);
        }
    }
    assert forall|i: int| 0 <= i < ls.len() implies ls[i] <= bytes.len() by {
        if i > 0 {
            assert(ls[i] == ne[i - 1]);
        }
    }
}

/// The line starts of a text are 0 and, in increasing order, the offsets
/// just past its newline bytes, and nothing else: each later start follows
/// a `\n` byte, and each `\n` byte is followed by a start.
pub proof fn lemma_line_starts_exact(bytes: Seq<u8>)
    requires
        bytes.len() <= usize::MAX,
    ensures
        line_starts(bytes)[0] == 0,
        forall|i: int, j: int| 0 <= i < j < line_starts(bytes).len() ==> line_starts(bytes)[i] < line_starts(bytes)[j],
        forall|k: int| 1 <= k < line_starts(bytes).len() ==> 1 <= #[trigger] line_starts(bytes)[k] <= bytes.len()
            && bytes[line_starts(bytes)[k] - 1] == 10u8,
        forall|i: int| 0 <= i < bytes.len() && bytes[i] == 10u8 ==> exists|k: int|
            1 <= k < line_starts(bytes).len() && #[trigger] line_starts(bytes)[k] == i + 1,
{
    lemma_line_starts_wf(bytes);
    lemma_newline_ends_exact(bytes);
    let ls = line_starts(bytes);
    let ne = newline_ends(bytes);
    assert forall|k: int| 1 <= k < ls.len() implies 1 <= #[trigger] ls[k] <= bytes.len() && bytes[ls[k] - 1] == 10u8 by {
        assert(ls[k] == ne[k - 1]);
    }
    assert forall|i: int| 0 <= i < bytes.len() && bytes[i] == 10u8 implies exists|k: int|
        1 <= k < ls.len() && #[trigger] ls[k] == i + 1 by {
        let m = choose|m: int| 0 <= m < ne.len() && ne[m] == i + 1;
        assert(ls[m + 1] == ne[m]);
    }
}

/// Each offset just past a newline is past a `\n` byte, and each `\n` byte
/// has its offset among them.
proof fn lemma_newline_ends_exact(bytes: Seq<u8>)
    requires
        bytes.len() <= usize::MAX,
    ensures
        forall|k: int| 0 <= k < newline_ends(bytes).len() ==> 1 <= #[trigger] newline_ends(bytes)[k] <= bytes.len()
            && bytes[newline_ends(bytes)[k] - 1] == 10u8,
        forall|i: int| 0 <= i < bytes.len() && bytes[i] == 10u8 ==> exists|m: int|
            0 <= m < newline_ends(bytes).len() && #[trigger] newline_ends(bytes)[m] == i + 1,
    decreases bytes.len(),
{
    if bytes.len() > 0 {
        let init = bytes.drop_last();
        lemma_newline_ends_exact(init);
        lemma_newline_ends(init);
        let rest = newline_ends(init);
        let ne = newline_ends(bytes);
        assert forall|k: int| 0 <= k < ne.len() implies 1 <= #[trigger] ne[k] <= bytes.len() && bytes[ne[k] - 1] == 10u8 by {
            if k < rest.len() {
                assert(ne[k] == rest[k]);
                assert(bytes[ne[k] - 1] == init[ne[k] - 1]);
            }
        }
        assert forall|i: int| 0 <= i < bytes.len() && bytes[i] == 10u8 implies exists|m: int|
            0 <= m < ne.len() && #[trigger] ne[m] == i + 1 by {
            if i < bytes.len() - 1 {
                assert(init[i] == bytes[i]);
                let m = choose|m: int| 0 <= m < rest.len() && rest[m] == i + 1;
                assert(ne[m] == rest[m]);
            } else {
                assert(ne[ne.len() - 1] == bytes.len());
            }
        }
    }
}

/// The offsets at which the lines of `s` start, in bytes: 0, then the
/// offset just past each `\n`.
pub fn lines_offsets(s: &str) -> (lines: Vec<usize>)
    ensures
        lines@ == line_starts(s.spec_bytes()),
        s.spec_bytes().len() <= usize::MAX,
{
    let bytes = s.as_bytes();
    let len: usize = bytes.len();
    let mut lines: Vec<usize> = Vec::new();
    lines.push(0);
    let mut i: usize = 0;
    while i < len
        invariant
            i <= len,
            len == bytes@.len(),
            lines@ == seq![0usize] + newline_ends(bytes@.take(i as int)),
        decreases len - i,
    {
        assert(bytes@.take(i + 1).drop_last() == bytes@.take(i as int));
        if bytes[i] == 10u8 {
            lines.push(i + 1);
        }
        i = i + 1;
    }
    assert(bytes@.take(len as int) == bytes@);
    lines
}

impl SourceMap {
    /// The files are well formed, the first file exists, and the files' spans
    /// are disjoint and in increasing order.
    pub open spec fn wf(&self) -> bool {
        &&& self.files@.len() >= 1
        &&& forall|i: int| 0 <= i < self.files@.len() ==> (#[trigger] self.files@[i]).wf()
        &&& forall|i: int, j: int| 0 <= i < j < self.files@.len() ==> self.files@[i].span.hi < self.files@[j].span.lo
    }

    /// The span that the last registered file covers.
    pub open spec fn last_span(&self) -> Span {
        self.files@.last().span
    }

    /// A source map that holds only the dummy file at offset 0, in which every
    /// call-site span lies.
    pub fn new() -> (cm: SourceMap)
        ensures
            cm.wf(),
            cm.files@.len() == 1,
            cm.files@[0].name@ == "<unspecified>"@,
            cm.files@[0].span == call_site_span(),
            cm.files@[0].lines@ == seq![0usize],
    {
        let mut lines: Vec<usize> = Vec::new();
        lines.push(0);
        let mut files: Vec<FileInfo> = Vec::new();
        files.push(FileInfo { name: "<unspecified>".to_owned(), span: Span { lo: 0, hi: 0 }, lines });
        SourceMap { files }
    }

    /// The first offset after the last file, leaving a gap of one.
    pub fn next_start_pos(&self) -> (pos: u32)
        requires
            self.files@.len() >= 1,
            self.last_span().hi < u32::MAX,
        ensures
            pos == self.last_span().hi + 1,
    {
        self.files[self.files.len() - 1].span.hi + 1
    }

    /// Registers `src` under `name` after the last file, and returns the span
    /// it covers.
    pub fn add_file(&mut self, name: &str, src: &str) -> (span: Span)
        requires
            old(self).wf(),
            old(self).last_span().hi + 1 + src.len() <= u32::MAX,
        ensures
            final(self).wf(),
            final(self).files@.len() == old(self).files@.len() + 1,
            forall|i: int| 0 <= i < old(self).files@.len() ==> final(self).files@[i] == old(self).files@[i],
            final(self).files@.last().name@ == name@,
            final(self).files@.last().lines@ == line_starts(src.spec_bytes()),
            final(self).files@.last().span == span,
            span.lo == old(self).last_span().hi + 1,
            span.hi == span.lo + src.len(),
    {
        let lines = lines_offsets(src);
        let lo = self.next_start_pos();
        let span = Span { lo, hi: lo + (src.len() as u32) };
        proof {
            lemma_line_starts_wf(src.spec_bytes());
        }
        let ghost old_files = self.files@;
        self.files.push(FileInfo { name: name.to_owned(), span, lines });
        proof {
            assert(self.files@ == old_files.push(self.files@.last()));
            assert forall|i: int, j: int| 0 <= i < j < self.files@.len() implies self.files@[i].span.hi < self.files@[j].span.lo by {
                if j == old_files.len() && i < old_files.len() - 1 {
                    assert(old_files[i].span.hi < old_files[old_files.len() - 1].span.lo);
                    assert(old_files[old_files.len() - 1].wf());
                }
            }
        }
        span
    }

    /// The first file that contains `span`.
    pub fn fileinfo(&self, span: Span) -> (fi: &FileInfo)
        requires
            file_index(self.files@, span) < self.files@.len(),
        ensures
            *fi == self.files@[file_index(self.files@, span)],
    {
        let len: usize = self.files.len();
        let mut i: usize = 0;
        while i < len
            invariant
                i <= len,
                len == self.files@.len(),
                file_index(self.files@, span) == file_index_from(self.files@, span, i as int),
                file_index(self.files@, span) < self.files@.len(),
            decreases len - i,
        {
            if self.files[i].span_within(span) {
                return &self.files[i];
            }
            i = i + 1;
        }
        &self.files[0]
    }
}

/// Whether some file of the source map contains `span`.
pub fn file_index_exists(cm: &SourceMap, span: Span) -> (b: bool)
    ensures
        b == (file_index(cm.files@, span) < cm.files@.len()),
{
    let len: usize = cm.files.len();
    let mut i: usize = 0;
    while i < len
        invariant
            i <= len,
            len == cm.files@.len(),
            file_index(cm.files@, span) == file_index_from(cm.files@, span, i as int),
        decreases len - i,
    {
        if cm.files[i].span_within(span) {
            return true;
        }
        i = i + 1;
    }
    false
}

/// `file_index_from` finds the first file from `i` on that contains the span.
proof fn lemma_file_index_from(files: Seq<FileInfo>, span: Span, i: int)
    requires
        0 <= i <= files.len(),
    ensures
        i <= file_index_from(files, span, i) <= files.len(),
        file_index_from(files, span, i) < files.len() ==> span_within_spec(files[file_index_from(files, span, i)].span, span),
        forall|j: int| i <= j < file_index_from(files, span, i) ==> !span_within_spec(#[trigger] files[j].span, span),
    decreases files.len() - i,
{
    if i < files.len() && !span_within_spec(files[i].span, span) {
        lemma_file_index_from(files, span, i + 1);
    }
}

/// The file index of a span names the first file that contains it.
pub proof fn lemma_file_index(files: Seq<FileInfo>, span: Span)
    ensures
        0 <= file_index(files, span) <= files.len(),
        file_index(files, span) < files.len() ==> span_within_spec(files[file_index(files, span)].span, span),
        forall|j: int| 0 <= j < file_index(files, span) ==> !span_within_spec(#[trigger] files[j].span, span),
{
    lemma_file_index_from(files, span, 0);
}

/// What `last_le` finds: an index below `k` (or -1) whose start is at or
/// before `rel`, with every later index below `k` starting after `rel`.
proof fn lemma_last_le_bounds(lines: Seq<usize>, rel: int, k: int)
    requires
        k <= lines.len(),
    ensures
        -1 <= last_le(lines, rel, k) < if k < 0 { 0 } else { k },
        last_le(lines, rel, k) >= 0 ==> lines[last_le(lines, rel, k)] <= rel,
        forall|i: int| last_le(lines, rel, k) < i < k ==> lines[i] > rel,
    decreases k,
{
    if k > 0 && lines[k - 1] > rel {
        lemma_last_le_bounds(lines, rel, k - 1);
    }
}

/// The position of an offset in a file: its line is the last line that
/// starts at or before it, and its column is its distance from that start.
pub proof fn lemma_line_column_characterized(lines: Seq<usize>, len: int, rel: int)
    requires
        lines_wf(lines, len),
        lines.len() <= usize::MAX,
        0 <= rel <= usize::MAX,
    ensures
        1 <= line_column(lines, rel).line <= lines.len(),
        lines[line_column(lines, rel).line - 1] <= rel,
        line_column(lines, rel).line == lines.len() || rel < lines[line_column(lines, rel).line as int],
        line_column(lines, rel).column == rel - lines[line_column(lines, rel).line - 1],
{
    lemma_last_le_bounds(lines, rel, lines.len() as int);
    let a = last_le(lines, rel, lines.len() as int);
    if a < 0 {
        assert(lines[0] > rel);
    }
    assert(line_column(lines, rel).line == a + 1);
    assert(lines[a] <= rel);
}

/// The offset at which a line starts is at column 0 of that line.
pub proof fn lemma_line_start_position(lines: Seq<usize>, len: int, k: int)
    requires
        lines_wf(lines, len),
        0 <= k < lines.len(),
    ensures
        line_column(lines, lines[k] as int) == (LineColumn { line: (k + 1) as usize, column: 0 }),
{
    if k + 1 < lines.len() {
        assert(lines[k] < lines[k + 1]);
    }
    lemma_last_le(lines, lines[k] as int, k, lines.len() as int);
}

/// In a well-formed source map, a well-formed span lies in at most one file.
proof fn lemma_at_most_one_file(cm: &SourceMap, s: Span, i: int, j: int)
    requires
        cm.wf(),
        s.lo <= s.hi,
        0 <= i < cm.files@.len(),
        0 <= j < cm.files@.len(),
        span_within_spec(cm.files@[i].span, s),
        span_within_spec(cm.files@[j].span, s),
    ensures
        i == j,
{
    if i < j {
        assert(cm.files@[i].span.hi < cm.files@[j].span.lo);
    } else if j < i {
        assert(cm.files@[j].span.hi < cm.files@[i].span.lo);
    }
}

/// The span of the file last added to the source map is found in that file,
/// starts at line 1, column 0, and ends on the file's last line, as many
/// bytes past that line's start as the line holds.
pub proof fn lemma_added_file_position(cm: &SourceMap)
    requires
        cm.wf(),
    ensures
        file_index(cm.files@, cm.last_span()) == cm.files@.len() - 1,
        line_column(cm.files@.last().lines@, cm.last_span().lo - cm.files@.last().span.lo)
            == (LineColumn { line: 1, column: 0 }),
        line_column(cm.files@.last().lines@, cm.last_span().hi - cm.files@.last().span.lo)
            == (LineColumn {
                line: cm.files@.last().lines@.len() as usize,
                column: (cm.last_span().hi - cm.last_span().lo - cm.files@.last().lines@.last()) as usize,
            }),
{
    let n = cm.files@.len() - 1;
    let f = cm.files@[n];
    assert(f.wf());
    lemma_file_index(cm.files@, f.span);
    let idx = file_index(cm.files@, f.span);
    if idx < n {
        lemma_at_most_one_file(cm, f.span, idx, n);
    }
    lemma_line_start_position(f.lines@, f.span.hi - f.span.lo, 0);
    let len = f.span.hi - f.span.lo;
    let m = f.lines@.len() - 1;
    lemma_last_le(f.lines@, len, m, f.lines@.len() as int);
}

/// Joining two well-formed spans gives the same result in either order, and
/// a join covers both spans.
pub proof fn lemma_join_commutes(cm: &SourceMap, a: Span, b: Span)
    requires
        cm.wf(),
        a.lo <= a.hi,
        b.lo <= b.hi,
        file_index(cm.files@, a) < cm.files@.len(),
        file_index(cm.files@, b) < cm.files@.len(),
    ensures
        join_spec(cm.files@, a, b) == join_spec(cm.files@, b, a),
        join_spec(cm.files@, a, b) matches Some(j) ==> span_within_spec(j, a) && span_within_spec(j, b),
{
    lemma_file_index(cm.files@, a);
    lemma_file_index(cm.files@, b);
    let ia = file_index(cm.files@, a);
    let ib = file_index(cm.files@, b);
    if span_within_spec(cm.files@[ia].span, b) {
        lemma_at_most_one_file(cm, b, ia, ib);
    } else if span_within_spec(cm.files@[ib].span, a) {
        lemma_at_most_one_file(cm, a, ia, ib);
    }
}

/// What `join` gives: `None` exactly when `other` does not lie in the file
/// of `span`; otherwise the smallest span that covers both, whose start is
/// the earlier of the two starts and whose end the later of the two ends.
pub proof fn lemma_join_is_smallest_cover(files: Seq<FileInfo>, span: Span, other: Span)
    requires
        file_index(files, span) < files.len(),
    ensures
        join_spec(files, span, other) is None <==> !(other.lo >= files[file_index(files, span)].span.lo
            && other.hi <= files[file_index(files, span)].span.hi),
        join_spec(files, span, other) matches Some(j) ==> {
            &&& j.lo <= span.lo && j.lo <= other.lo
            &&& (j.lo == span.lo || j.lo == other.lo)
            &&& j.hi >= span.hi && j.hi >= other.hi
            &&& (j.hi == span.hi || j.hi == other.hi)
        },
{
}

impl Span {
    /// The line and column at which this span starts.
    pub fn start(&self, cm: &SourceMap) -> (lc: LineColumn)
        requires
            cm.wf(),
            file_index(cm.files@, *self) < cm.files@.len(),
            self.lo <= cm.files@[file_index(cm.files@, *self)].span.hi,
        ensures
            lc == line_column(
                cm.files@[file_index(cm.files@, *self)].lines@,
                self.lo - cm.files@[file_index(cm.files@, *self)].span.lo,
            ),
    {
        proof {
            lemma_file_index(cm.files@, *self);
        }
        let fi = cm.fileinfo(*self);
        fi.offset_line_column(self.lo as usize)
    }

    /// The line and column at which this span ends.
    pub fn end(&self, cm: &SourceMap) -> (lc: LineColumn)
        requires
            cm.wf(),
            file_index(cm.files@, *self) < cm.files@.len(),
            cm.files@[file_index(cm.files@, *self)].span.lo <= self.hi,
        ensures
            lc == line_column(
                cm.files@[file_index(cm.files@, *self)].lines@,
                self.hi - cm.files@[file_index(cm.files@, *self)].span.lo,
            ),
    {
        proof {
            lemma_file_index(cm.files@, *self);
        }
        let fi = cm.fileinfo(*self);
        fi.offset_line_column(self.hi as usize)
    }

    /// The smallest span that covers both `self` and `other`, when `other`
    /// lies in the file of `self`.
    pub fn join(&self, other: Span, cm: &SourceMap) -> (r: Option<Span>)
        requires
            file_index(cm.files@, *self) < cm.files@.len(),
        ensures
            r == join_spec(cm.files@, *self, other),
    {
        let fi = cm.fileinfo(*self);
        if !fi.span_within(other) {
            return None;
        }
        Some(Span {
            lo: if self.lo <= other.lo { self.lo } else { other.lo },
            hi: if self.hi >= other.hi { self.hi } else { other.hi },
        })
    }

    /// The file in which this span lies.
    pub fn source_file(&self, cm: &SourceMap) -> (sf: SourceFile)
        requires
            file_index(cm.files@, *self) < cm.files@.len(),
        ensures
            sf@ == cm.files@[file_index(cm.files@, *self)].name@,
    {
        let fi = cm.fileinfo(*self);
        SourceFile { path: fi.name.clone() }
    }
}

/// The `Debug` rendering of the path `path`, as std's `Path` writes it.
pub uninterp spec fn path_debug_text(path: Seq<char>) -> Seq<char>;

/// The `Debug` rendering of `std::path::Path::new(path)`: std quotes the
/// path and escapes its characters. The rendering is named
/// `path_debug_text`; nothing more is claimed of it.
#[verifier::external_body]
fn path_debug(path: &str) -> (t: String)
    ensures
        t@ == path_debug_text(path@),
{
    format!("{:?}", std::path::Path::new(path))
}

/// The debug rendering of a source file: `SourceFile { path: .., is_real: false }`.
pub open spec fn source_file_debug(path: Seq<char>) -> Seq<char> {
    seq!['S', 'o', 'u', 'r', 'c', 'e', 'F', 'i', 'l', 'e', ' ', '{', ' ', 'p', 'a', 't', 'h', ':', ' ']
        + path_debug_text(path) + seq![',', ' ', 'i', 's', '_', 'r', 'e', 'a', 'l', ':', ' ', 'f', 'a', 'l', 's', 'e', ' ', '}']
}

impl View for SourceFile {
    type V = Seq<char>;

    closed spec fn view(&self) -> Seq<char> {
        self.path@
    }
}

impl SourceFile {
    /// The path of this source file.
    pub fn path(&self) -> (p: String)
        ensures
            p@ == self@,
    {
        self.path.clone()
    }

    /// The debug rendering of this source file: its path and that it is not real.
    pub fn debug_text(&self) -> (t: String)
        ensures
            t@ == source_file_debug(self@),
    {
        let mut t = "SourceFile { path: ".to_owned();
        proof {
            reveal_strlit("SourceFile { path: ");
            reveal_strlit(", is_real: false }");
        }
        let p = path_debug(self.path.as_str());
        t.append(p.as_str());
        t.append(", is_real: false }");
        assert(t@ =~= source_file_debug(self@));
        t
    }

    /// Whether the file is a real file on disk: parsed strings never are.
    pub fn is_real(&self) -> (b: bool)
        ensures
            !b,
    {
        false
    }
}

/// Registers `src` in the source map as the next parsed string and returns a
/// cursor at its first byte.
pub fn get_cursor<'a>(cm: &mut SourceMap, src: &'a str) -> (c: Cursor<'a>)
    requires
        old(cm).wf(),
        old(cm).last_span().hi + 1 + src.len() <= u32::MAX,
    ensures
        final(cm).wf(),
        final(cm).files@.len() == old(cm).files@.len() + 1,
        forall|i: int| 0 <= i < old(cm).files@.len() ==> final(cm).files@[i] == old(cm).files@[i],
        final(cm).files@.last().name@ == parsed_string_name(old(cm).files@.len()),
        final(cm).files@.last().lines@ == line_starts(src.spec_bytes()),
        final(cm).files@.last().span == (Span {
            lo: (old(cm).last_span().hi + 1) as u32,
            hi: (old(cm).last_span().hi + 1 + src.len()) as u32,
        }),
        c.rest == src,
        c.off == old(cm).last_span().hi + 1,
{
    let mut name = "<parsed string ".to_owned();
    proof {
        reveal_strlit("<parsed string ");
    }
    push_decimal(&mut name, cm.files.len() as u128);
    push_char(&mut name, '>');
    let span = cm.add_file(name.as_str(), src);
    Cursor { rest: src, off: span.lo }
}

} // verus!
