//! The coordinate index over one text snapshot.
//!
//! The line table itself is `lsp_document::IndexedText`; what this module
//! adds is the conversion between editor positions and storage offsets with
//! a clamping rule for positions that lie outside the text.

use crate::text::{
    ends_line, fit, has_line, inserted, lemma_fit_all, lemma_fit_is_longest, lemma_fit_of_prefix,
    lemma_fit_unique, lemma_insert_keeps_starts, lemma_line_at, lemma_line_at_is,
    lemma_line_end_bounds, lemma_line_runs_on, lemma_line_start_bounds, lemma_measure_concat,
    lemma_measure_grows, lemma_measure_is_encoded_len, lemma_measure_order, lemma_measure_split,
    line_at, line_end, line_start, line_text, measure, no_breaks, on_boundary, scan_prefix,
    Encoding,
};
use crate::types::{Change, Position, Range};
use lsp_document::{IndexedText, Pos, TextChange, TextMap};
use std::borrow::Borrow;
use vstd::pervasive::unreached;
use vstd::prelude::*;
use vstd::string::StringSliceAdditionalSpecFns;
use vstd::utf8::encode_utf8;

verus! {

/// `lsp_document::IndexedText`: a text together with the byte range of each
/// of its lines. Opaque here; `indexed_text` names the text it holds.
#[verifier::external_type_specification]
#[verifier::external_body]
#[verifier::reject_recursive_types(T)]
pub struct ExIndexedText<T: Borrow<str>>(IndexedText<T>);

/// A position as the line table counts it: a line number and a byte offset
/// from the start of that line. It stands for `lsp_document::Pos`.
#[derive(Clone, Copy, Debug, PartialEq, Eq, Structural)]
pub struct BytePos {
    pub line: u32,
    pub col: u32,
}

/// The text that an `IndexedText` was built over.
pub uninterp spec fn indexed_text(doc: IndexedText<String>) -> Seq<char>;

/// The largest text, in bytes, whose line table is exact: the table stores
/// offsets in 32 bits.
pub const MAX_TEXT_BYTES: usize = 0xFFFF_FFFF;

/// The byte offset that a byte position denotes: the start of its line plus
/// its column.
pub open spec fn pos_offset(t: Seq<char>, p: BytePos) -> int {
    measure(t.take(line_start(t, p.line as nat)), Encoding::Utf8) + p.col
}

/// Whether a byte position names a character boundary of a line the text has.
pub open spec fn pos_valid(t: Seq<char>, p: BytePos) -> bool {
    &&& has_line(t, p.line as nat)
    &&& on_boundary(t, pos_offset(t, p), Encoding::Utf8)
}

/// The character index of a valid byte position.
pub open spec fn pos_index(t: Seq<char>, p: BytePos) -> int {
    fit(t, pos_offset(t, p), Encoding::Utf8)
}

/// `IndexedText::new`. Trusted: the index holds the text it was given. The
/// bound keeps every line offset within the 32 bits the table stores.
#[verifier::external_body]
fn index_new(text: String) -> (doc: IndexedText<String>)
    requires
        measure(text@, Encoding::Utf8) <= MAX_TEXT_BYTES,
    ensures
        indexed_text(doc) == text@,
{
    IndexedText::new(text)
}

/// `TextMap::text` of `IndexedText`. Trusted: it hands out the text held.
#[verifier::external_body]
fn index_text(doc: &IndexedText<String>) -> (s: &str)
    ensures
        s@ == indexed_text(*doc),
{
    doc.text()
}

/// `TextMap::line_range` of `IndexedText`. Trusted: for a line the text has,
/// the positions of its first byte and one past its last, ending included;
/// nothing for any other line number.
#[verifier::external_body]
fn index_line_range(doc: &IndexedText<String>, line: u32) -> (r: Option<(BytePos, BytePos)>)
    requires
        measure(indexed_text(*doc), Encoding::Utf8) <= MAX_TEXT_BYTES,
    ensures
        !has_line(indexed_text(*doc), line as nat) ==> r is None,
        has_line(indexed_text(*doc), line as nat) ==> r == Some(
            (
                (BytePos { line, col: 0 }),
                (BytePos {
                    line,
                    col: measure(line_text(indexed_text(*doc), line as nat), Encoding::Utf8) as u32,
                }),
            ),
        ),
{
    match doc.line_range(line) {
        Some(range) => Some(
            (
                BytePos { line: range.start.line, col: range.start.col },
                BytePos { line: range.end.line, col: range.end.col },
            ),
        ),
        None => None,
    }
}

/// `TextMap::substr` of `IndexedText`. Trusted: between two valid positions
/// in order, the characters from the first up to the second.
#[verifier::external_body]
fn index_substr(doc: &IndexedText<String>, start: BytePos, end: BytePos) -> (r: Option<&str>)
    requires
        measure(indexed_text(*doc), Encoding::Utf8) <= MAX_TEXT_BYTES,
        pos_valid(indexed_text(*doc), start),
        pos_valid(indexed_text(*doc), end),
        pos_offset(indexed_text(*doc), start) <= pos_offset(indexed_text(*doc), end),
    ensures
        r is Some,
        r.unwrap()@ == indexed_text(*doc).subrange(
            pos_index(indexed_text(*doc), start),
            pos_index(indexed_text(*doc), end),
        ),
{
    doc.substr(Pos::new(start.line, start.col)..Pos::new(end.line, end.col))
}

/// `lsp_document::apply_change` with a range. Trusted: the text with the
/// characters between two valid positions in order replaced by `patch`.
#[verifier::external_body]
fn index_splice(doc: &IndexedText<String>, start: BytePos, end: BytePos, patch: String) -> (s:
    String)
    requires
        measure(indexed_text(*doc), Encoding::Utf8) <= MAX_TEXT_BYTES,
        pos_valid(indexed_text(*doc), start),
        pos_valid(indexed_text(*doc), end),
        pos_offset(indexed_text(*doc), start) <= pos_offset(indexed_text(*doc), end),
    ensures
        s@ == indexed_text(*doc).take(pos_index(indexed_text(*doc), start)) + patch@
            + indexed_text(*doc).skip(pos_index(indexed_text(*doc), end)),
{
    let range = Pos::new(start.line, start.col)..Pos::new(end.line, end.col);
    lsp_document::apply_change(doc, TextChange { range: Some(range), patch })
}

/// `TextMap::offset_to_pos` of `IndexedText`. Trusted: for a byte offset
/// inside the text or at its end, the line that holds the byte and the
/// offset from the start of that line; the end of the text counts to the
/// last line that has characters.
#[verifier::external_body]
fn index_offset_to_pos(doc: &IndexedText<String>, offset: usize) -> (r: Option<BytePos>)
    requires
        measure(indexed_text(*doc), Encoding::Utf8) <= MAX_TEXT_BYTES,
        offset <= measure(indexed_text(*doc), Encoding::Utf8),
    ensures
        r is Some,
        r.unwrap().line == line_at(
            indexed_text(*doc),
            fit(indexed_text(*doc), offset as int, Encoding::Utf8),
        ),
        r.unwrap().col == offset - measure(
            indexed_text(*doc).take(line_start(indexed_text(*doc), r.unwrap().line as nat)),
            Encoding::Utf8,
        ),
{
    match doc.offset_to_pos(offset) {
        Some(at) => Some(BytePos { line: at.line, col: at.col }),
        None => None,
    }
}

/// The character index that an editor position denotes. The column is
/// clamped to the longest prefix of its line that it covers, so a column
/// behind the end of the line means the end of the line and a column inside
/// a surrogate pair means the character's start; a line the text does not
/// have means the end of the text.
pub open spec fn position_index(t: Seq<char>, p: Position) -> int {
    if has_line(t, p.line as nat) {
        line_start(t, p.line as nat) + fit(
            line_text(t, p.line as nat),
            p.character as int,
            Encoding::Utf16,
        )
    } else {
        t.len() as int
    }
}

/// The storage offset, in bytes, that an editor position denotes.
pub open spec fn position_offset(t: Seq<char>, p: Position) -> nat {
    measure(t.take(position_index(t, p)), Encoding::Utf8)
}

/// Whether an editor position names a point of the text as it stands: a line
/// the text has and a column at which a character of that line starts or the
/// line ends.
pub open spec fn position_exact(t: Seq<char>, p: Position) -> bool {
    &&& has_line(t, p.line as nat)
    &&& on_boundary(line_text(t, p.line as nat), p.character as int, Encoding::Utf16)
}

/// The index of a position lies inside the text, and on its own line where
/// the text has that line.
pub proof fn lemma_position_index_bounds(t: Seq<char>, p: Position)
    ensures
        0 <= position_index(t, p) <= t.len(),
        has_line(t, p.line as nat) ==> line_start(t, p.line as nat) <= position_index(t, p)
            <= line_end(t, line_start(t, p.line as nat)),
{
    lemma_line_start_bounds(t, p.line as nat);
    lemma_fit_is_longest(line_text(t, p.line as nat), p.character as int, Encoding::Utf16);
}

/// The editor position of a storage offset. An offset inside a character
/// means the start of the character, an offset behind the text its end.
pub open spec fn offset_position(t: Seq<char>, offset: int) -> Position {
    let i = fit(t, offset, Encoding::Utf8);
    let line = line_at(t, i);
    Position {
        line: line as u32,
        character: measure(t.subrange(line_start(t, line), i), Encoding::Utf16) as u32,
    }
}

/// The text with the span between two editor positions replaced. The
/// positions are clamped into the text and taken in order, whichever was
/// given first.
pub open spec fn spliced(t: Seq<char>, range: Range, patch: Seq<char>) -> Seq<char> {
    let a = position_index(t, range.start);
    let b = position_index(t, range.end);
    if a <= b {
        t.take(a) + patch + t.skip(b)
    } else {
        t.take(b) + patch + t.skip(a)
    }
}

/// The text after one edit: what every edit handed to a store is held to.
pub open spec fn applied(t: Seq<char>, range: Option<Range>, patch: Seq<char>) -> Seq<char> {
    match range {
        None => patch,
        Some(r) => spliced(t, r, patch),
    }
}

/// The part of the cursor's line that lies before the cursor.
pub open spec fn line_before(t: Seq<char>, p: Position) -> Seq<char> {
    t.subrange(line_start(t, p.line as nat), position_index(t, p))
}

/// From an offset to a position and back: the position found for an offset
/// names a point of the text, the point that the offset is clamped to; for
/// an offset at a character boundary the way back gives the offset itself.
pub proof fn lemma_offset_round_trip(t: Seq<char>, offset: int)
    requires
        measure(t, Encoding::Utf8) <= MAX_TEXT_BYTES,
        0 <= offset,
    ensures
        position_exact(t, offset_position(t, offset)),
        position_index(t, offset_position(t, offset)) == fit(t, offset, Encoding::Utf8),
        on_boundary(t, offset, Encoding::Utf8) ==> position_offset(t, offset_position(t, offset))
            == offset,
{
    let i = fit(t, offset, Encoding::Utf8);
    let line = line_at(t, i);
    let first = line_start(t, line);
    let p = offset_position(t, offset);
    lemma_fit_is_longest(t, offset, Encoding::Utf8);
    lemma_line_at(t, i);
    lemma_line_start_bounds(t, line);
    lemma_measure_order(t.subrange(first, i));
    lemma_measure_split(t, first, i, Encoding::Utf8);
    lemma_measure_grows(t, i, t.len() as int, Encoding::Utf8);
    assert(t.take(t.len() as int) =~= t);
    lemma_measure_order(t.take(i));
    assert(p.line == line);
    assert(p.character == measure(t.subrange(first, i), Encoding::Utf16));
    assert(line_text(t, line).take(i - first) =~= t.subrange(first, i));
    lemma_fit_of_prefix(line_text(t, line), i - first, Encoding::Utf16);
}

/// From a position to an offset and back: a position that names a point of
/// the text gets itself back, provided it lies before the end of its line or
/// at the end of the text, on a line that has characters or is the first.
pub proof fn lemma_position_round_trip(t: Seq<char>, p: Position)
    requires
        measure(t, Encoding::Utf8) <= MAX_TEXT_BYTES,
        position_exact(t, p),
        p.line == 0 || line_start(t, p.line as nat) < t.len(),
        position_index(t, p) < line_end(t, line_start(t, p.line as nat)) || line_end(
            t,
            line_start(t, p.line as nat),
        ) == t.len(),
    ensures
        offset_position(t, position_offset(t, p) as int) == p,
{
    let i = position_index(t, p);
    let first = line_start(t, p.line as nat);
    lemma_position_index_bounds(t, p);
    lemma_line_start_bounds(t, p.line as nat);
    lemma_fit_of_prefix(t, i, Encoding::Utf8);
    lemma_line_at_is(t, p.line as nat, i);
    assert(line_text(t, p.line as nat).take(i - first) =~= t.subrange(first, i));
}

/// Whether an editor position names a point inside a line of the text: a
/// point of the text, before the ending of its line, on a line that begins
/// the text or follows a line ending.
pub open spec fn position_inside(t: Seq<char>, p: Position) -> bool {
    &&& position_exact(t, p)
    &&& no_breaks(line_before(t, p))
    &&& (p.line == 0 || ends_line(t, line_start(t, p.line as nat) - 1))
}

/// The position `units` columns to the right of `p` on the same line.
pub open spec fn moved_right(p: Position, units: nat) -> Position {
    Position { line: p.line, character: (p.character + units) as u32 }
}

/// Putting text in and taking it out again: when text without line breaks
/// is put in at a point inside a line, it lies between that point and the
/// point as many columns to the right as the text has code units, and the
/// edit that deletes that span gives the text as it was before.
pub proof fn lemma_insert_then_delete(t: Seq<char>, p: Position, s: Seq<char>)
    requires
        position_inside(t, p),
        no_breaks(s),
        p.character + measure(s, Encoding::Utf16) <= u32::MAX,
    ensures
        applied(t, Some(Range { start: p, end: p }), s) == inserted(t, position_index(t, p), s),
        position_index(inserted(t, position_index(t, p), s), p) == position_index(t, p),
        position_index(
            inserted(t, position_index(t, p), s),
            moved_right(p, measure(s, Encoding::Utf16)),
        ) == position_index(t, p) + s.len(),
        applied(
            applied(t, Some(Range { start: p, end: p }), s),
            Some(Range { start: p, end: moved_right(p, measure(s, Encoding::Utf16)) }),
            Seq::empty(),
        ) == t,
{
    let line = p.line as nat;
    let first = line_start(t, line);
    let i = position_index(t, p);
    let k = i - first;
    let n = s.len() as int;
    let after = inserted(t, i, s);
    let q = moved_right(p, measure(s, Encoding::Utf16));
    lemma_position_index_bounds(t, p);
    lemma_line_start_bounds(t, line);
    lemma_insert_keeps_starts(t, i, s, line, line);
    if line > 0 {
        lemma_insert_keeps_starts(t, i, s, line, (line - 1) as nat);
    }
    assert(has_line(after, line));
    let kept = t.subrange(first, i);
    assert(kept =~= line_before(t, p));
    assert(after.subrange(first, i + n) =~= kept + s);
    assert forall|j: int| 0 <= j < (kept + s).len() implies #[trigger] (kept + s)[j] != '\n' && (
    kept + s)[j] != '\r' by {
        if j < kept.len() {
            assert((kept + s)[j] == kept[j]);
        } else {
            assert((kept + s)[j] == s[j - kept.len()]);
        }
    }
    lemma_line_runs_on(after, first, i + n);
    lemma_line_end_bounds(after, i + n);
    let row = line_text(after, line);
    assert(row.take(k) =~= kept);
    assert(row.take(k + n) =~= kept + s);
    assert(line_text(t, line).take(k) =~= kept);
    lemma_measure_concat(kept, s, Encoding::Utf16);
    lemma_fit_of_prefix(row, k, Encoding::Utf16);
    lemma_fit_of_prefix(row, k + n, Encoding::Utf16);
    assert(position_index(after, p) == i);
    assert(position_index(after, q) == i + n);
    assert(after.take(i) + Seq::<char>::empty() + after.skip(i + n) =~= t);
}

/// A text snapshot with its coordinate index.
pub struct TextIndex {
    inner: IndexedText<String>,
}

impl TextIndex {
    /// The text that is indexed.
    pub closed spec fn view(&self) -> Seq<char> {
        indexed_text(self.inner)
    }

    #[verifier::type_invariant]
    spec fn within_limit(&self) -> bool {
        measure(indexed_text(self.inner), Encoding::Utf8) <= MAX_TEXT_BYTES
    }

    /// Indexes `text`, unless it is larger than the index can address.
    pub fn new(text: String) -> (r: Option<TextIndex>)
        ensures
            measure(text@, Encoding::Utf8) <= MAX_TEXT_BYTES ==> r is Some && r.unwrap()@ == text@,
            measure(text@, Encoding::Utf8) > MAX_TEXT_BYTES ==> r is None,
    {
        let content: &str = text.as_str();
        let total: usize = content.as_bytes().len();
        proof {
            lemma_measure_is_encoded_len(text@);
            assert(content.spec_bytes() == encode_utf8(text@));
        }
        if total > MAX_TEXT_BYTES {
            None
        } else {
            Some(TextIndex { inner: index_new(text) })
        }
    }

    /// The index of the empty text.
    pub fn empty() -> (r: TextIndex)
        ensures
            r@ == Seq::<char>::empty(),
    {
        let text = String::new();
        assert(measure(text@, Encoding::Utf8) == 0);
        TextIndex { inner: index_new(text) }
    }

    /// The indexed text.
    pub fn text(&self) -> (s: &str)
        ensures
            s@ == self@,
            measure(self@, Encoding::Utf8) <= MAX_TEXT_BYTES,
    {
        proof {
            use_type_invariant(self);
        }
        index_text(&self.inner)
    }

    /// The characters between two valid byte positions in order.
    fn between(&self, start: BytePos, end: BytePos) -> (s: &str)
        requires
            pos_valid(self@, start),
            pos_valid(self@, end),
            pos_offset(self@, start) <= pos_offset(self@, end),
        ensures
            s@ == self@.subrange(pos_index(self@, start), pos_index(self@, end)),
    {
        proof {
            use_type_invariant(self);
        }
        match index_substr(&self.inner, start, end) {
            Some(s) => s,
            None => unreached(),
        }
    }

    /// The byte position of an editor position, clamped into the text.
    fn locate(&self, p: Position) -> (r: BytePos)
        ensures
            pos_valid(self@, r),
            pos_index(self@, r) == position_index(self@, p),
            pos_offset(self@, r) == position_offset(self@, p),
    {
        proof {
            use_type_invariant(self);
            lemma_position_index_bounds(self@, p);
        }
        let ghost t = self@;
        match self.line(p.line) {
            None => {
                let content: &str = index_text(&self.inner);
                let total: usize = content.as_bytes().len();
                proof {
                    lemma_measure_is_encoded_len(t);
                    assert(content.spec_bytes() == encode_utf8(t));
                    assert(t.take(t.len() as int) =~= t);
                    assert(t.take(0) =~= Seq::<char>::empty());
                    lemma_fit_of_prefix(t, t.len() as int, Encoding::Utf8);
                }
                BytePos { line: 0, col: total as u32 }
            },
            Some(line) => {
                let ghost first = line_start(t, p.line as nat);
                let span = scan_prefix(line, p.character as usize, Encoding::Utf16);
                proof {
                    let k = span.chars as int;
                    lemma_line_start_bounds(t, p.line as nat);
                    assert(line@.take(k) =~= t.subrange(first, first + k));
                    lemma_measure_split(t, first, first + k, Encoding::Utf8);
                    lemma_measure_split(t, first + k, t.len() as int, Encoding::Utf8);
                    assert(t.take(t.len() as int) =~= t);
                    lemma_fit_of_prefix(t, first + k, Encoding::Utf8);
                }
                BytePos { line: p.line, col: span.bytes as u32 }
            },
        }
    }

    /// The storage offset of an editor position, clamped into the text.
    pub fn to_offset(&self, p: Position) -> (offset: usize)
        ensures
            offset == position_offset(self@, p),
    {
        let at = self.locate(p);
        self.offset_at(at)
    }

    /// The storage offset of a valid byte position.
    fn offset_at(&self, at: BytePos) -> (offset: usize)
        requires
            pos_valid(self@, at),
        ensures
            offset == pos_offset(self@, at),
            offset == measure(self@.take(pos_index(self@, at)), Encoding::Utf8),
            0 <= pos_index(self@, at) <= self@.len(),
    {
        proof {
            use_type_invariant(self);
        }
        let ghost t = self@;
        proof {
            assert(t.take(0) =~= Seq::<char>::empty());
            lemma_fit_of_prefix(t, 0, Encoding::Utf8);
            lemma_fit_is_longest(t, pos_offset(t, at), Encoding::Utf8);
        }
        let before = self.between(BytePos { line: 0, col: 0 }, at);
        proof {
            assert(before@ =~= t.take(pos_index(t, at)));
            lemma_measure_is_encoded_len(before@);
            assert(before.spec_bytes() == encode_utf8(before@));
        }
        before.as_bytes().len()
    }

    /// The text of line number `line` with its ending, if the text has that
    /// line.
    pub fn line(&self, line: u32) -> (r: Option<&str>)
        ensures
            has_line(self@, line as nat) ==> r is Some && r.unwrap()@ == line_text(
                self@,
                line as nat,
            ),
            !has_line(self@, line as nat) ==> r is None,
    {
        proof {
            use_type_invariant(self);
        }
        let ghost t = self@;
        match index_line_range(&self.inner, line) {
            None => None,
            Some((start, end)) => {
                let ghost first = line_start(t, line as nat);
                let ghost last = line_end(t, first);
                proof {
                    lemma_line_start_bounds(t, line as nat);
                    lemma_measure_split(t, first, last, Encoding::Utf8);
                    lemma_measure_split(t, last, t.len() as int, Encoding::Utf8);
                    assert(t.take(t.len() as int) =~= t);
                    lemma_fit_of_prefix(t, first, Encoding::Utf8);
                    lemma_fit_of_prefix(t, last, Encoding::Utf8);
                }
                Some(self.between(start, end))
            },
        }
    }

    /// The part of the cursor's line before the cursor, if the cursor names a
    /// point of the text.
    pub fn line_before(&self, p: Position) -> (r: Option<&str>)
        ensures
            position_exact(self@, p) ==> r is Some && r.unwrap()@ == line_before(self@, p),
            !position_exact(self@, p) ==> r is None,
    {
        proof {
            use_type_invariant(self);
        }
        let ghost t = self@;
        match self.line(p.line) {
            None => None,
            Some(line) => {
                let span = scan_prefix(line, p.character as usize, Encoding::Utf16);
                proof {
                    lemma_line_start_bounds(t, p.line as nat);
                    assert(line@.take(span.chars as int) =~= line_before(t, p));
                }
                if span.units == p.character as usize {
                    let ghost first = line_start(t, p.line as nat);
                    let ghost k = span.chars as int;
                    proof {
                        lemma_measure_split(t, first, first + k, Encoding::Utf8);
                        lemma_measure_split(t, first + k, t.len() as int, Encoding::Utf8);
                        assert(t.take(t.len() as int) =~= t);
                        lemma_fit_of_prefix(t, first, Encoding::Utf8);
                        lemma_fit_of_prefix(t, first + k, Encoding::Utf8);
                    }
                    Some(
                        self.between(
                            BytePos { line: p.line, col: 0 },
                            BytePos { line: p.line, col: span.bytes as u32 },
                        ),
                    )
                } else {
                    None
                }
            },
        }
    }

    /// The text after one edit. The index itself is not changed: the result
    /// is indexed anew.
    pub fn apply(&self, change: Change) -> (s: String)
        ensures
            s@ == applied(self@, change.range, change.text@),
    {
        proof {
            use_type_invariant(self);
        }
        let ghost t = self@;
        match change.range {
            None => change.text,
            Some(range) => {
                let a = self.locate(range.start);
                let b = self.locate(range.end);
                let at_a = self.offset_at(a);
                let at_b = self.offset_at(b);
                proof {
                    let i = position_index(t, range.start);
                    let j = position_index(t, range.end);
                    if i <= j {
                        lemma_measure_grows(t, i, j, Encoding::Utf8);
                    } else {
                        lemma_measure_grows(t, j, i, Encoding::Utf8);
                    }
                }
                if at_a <= at_b {
                    index_splice(&self.inner, a, b, change.text)
                } else {
                    index_splice(&self.inner, b, a, change.text)
                }
            },
        }
    }
    /// The editor position of a storage offset, clamped into the text.
    pub fn from_offset(&self, offset: usize) -> (p: Position)
        ensures
            p == offset_position(self@, offset as int),
    {
        proof {
            use_type_invariant(self);
        }
        let ghost t = self@;
        let content: &str = index_text(&self.inner);
        let total: usize = content.as_bytes().len();
        proof {
            lemma_measure_is_encoded_len(t);
            assert(content.spec_bytes() == encode_utf8(t));
        }
        let clamped: usize = if offset < total {
            offset
        } else {
            total
        };
        let ghost i = fit(t, offset as int, Encoding::Utf8);
        proof {
            lemma_fit_is_longest(t, offset as int, Encoding::Utf8);
            if offset >= total {
                lemma_fit_all(t, offset as int, Encoding::Utf8);
                lemma_fit_all(t, clamped as int, Encoding::Utf8);
            }
            assert(fit(t, clamped as int, Encoding::Utf8) == i);
            lemma_fit_is_longest(t, clamped as int, Encoding::Utf8);
            lemma_line_at(t, i);
        }
        let at: BytePos = match index_offset_to_pos(&self.inner, clamped) {
            Some(at) => at,
            None => unreached(),
        };
        let ghost first = line_start(t, at.line as nat);
        let ghost last = line_end(t, first);
        match self.line(at.line) {
            None => unreached(),
            Some(line) => {
                let span = scan_prefix(line, at.col as usize, Encoding::Utf8);
                proof {
                    let k = i - first;
                    lemma_line_start_bounds(t, at.line as nat);
                    lemma_measure_split(t, first, i, Encoding::Utf8);
                    assert(line@.take(k) =~= t.subrange(first, i));
                    if i < last {
                        lemma_measure_split(t, first, i + 1, Encoding::Utf8);
                        assert(line@.take(k + 1) =~= t.subrange(first, i + 1));
                    }
                    lemma_fit_unique(line@, at.col as int, k, Encoding::Utf8);
                    lemma_measure_order(line@.take(k));
                    lemma_measure_grows(t, i, t.len() as int, Encoding::Utf8);
                    assert(t.take(t.len() as int) =~= t);
                }
                Position { line: at.line, character: span.units as u32 }
            },
        }
    }
}

} // verus!
