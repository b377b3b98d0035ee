//! The mathematical model of document text.
//!
//! A text is a sequence of characters. Editors address it in UTF-16 code
//! units, storage addresses it in UTF-8 bytes; both are measured here, and the
//! longest prefix that fits a budget of either is what every clamping rule of
//! the crate is stated with.

use vstd::prelude::*;
use vstd::std_specs::iter::IteratorSpec;
use vstd::string::StringSliceAdditionalSpecFns;
use vstd::utf8::*;

verus! {

/// The two ways of counting the size of a character.
#[derive(Clone, Copy, Debug, PartialEq, Eq, Structural)]
pub enum Encoding {
    /// Bytes of storage: 1 to 4 per character.
    Utf8,
    /// Code units as editors count columns: 1 or 2 per character.
    Utf16,
}

/// The size of one character in the given encoding.
pub open spec fn width(c: char, enc: Encoding) -> nat {
    match enc {
        Encoding::Utf8 => if (c as u32) < 0x80 {
            1
        } else if (c as u32) < 0x800 {
            2
        } else if (c as u32) < 0x10000 {
            3
        } else {
            4
        },
        Encoding::Utf16 => if (c as u32) < 0x10000 {
            1
        } else {
            2
        },
    }
}

/// The size of a whole text in the given encoding.
pub open spec fn measure(s: Seq<char>, enc: Encoding) -> nat
    decreases s.len(),
{
    if s.len() == 0 {
        0
    } else {
        measure(s.drop_last(), enc) + width(s.last(), enc)
    }
}

/// The number of characters in the longest prefix of `s` whose size is at
/// most `budget`.
pub open spec fn fit(s: Seq<char>, budget: int, enc: Encoding) -> int
    decreases s.len(),
{
    if s.len() == 0 {
        0
    } else if measure(s, enc) <= budget {
        s.len() as int
    } else {
        fit(s.drop_last(), budget, enc)
    }
}

/// Whether `budget` is exactly the size of some prefix of `s`.
pub open spec fn on_boundary(s: Seq<char>, budget: int, enc: Encoding) -> bool {
    measure(s.take(fit(s, budget, enc)), enc) == budget
}

/// Computes the size of one character.
pub fn char_width(c: char, enc: Encoding) -> (w: usize)
    ensures
        w == width(c, enc),
        1 <= w <= 4,
{
    let v: u32 = c as u32;
    match enc {
        Encoding::Utf8 => if v < 0x80 {
            1
        } else if v < 0x800 {
            2
        } else if v < 0x10000 {
            3
        } else {
            4
        },
        Encoding::Utf16 => if v < 0x10000 {
            1
        } else {
            2
        },
    }
}

/// The size of a concatenation is the sum of the sizes.
pub proof fn lemma_measure_concat(a: Seq<char>, b: Seq<char>, enc: Encoding)
    ensures
        measure(a + b, enc) == measure(a, enc) + measure(b, enc),
    decreases b.len(),
{
    if b.len() == 0 {
        assert(a + b =~= a);
    } else {
        assert((a + b).drop_last() =~= a + b.drop_last());
        lemma_measure_concat(a, b.drop_last(), enc);
    }
}

/// The size of a prefix splits at any earlier index.
pub proof fn lemma_measure_split(t: Seq<char>, i: int, j: int, enc: Encoding)
    requires
        0 <= i <= j <= t.len(),
    ensures
        measure(t.take(j), enc) == measure(t.take(i), enc) + measure(t.subrange(i, j), enc),
{
    assert(t.take(j) =~= t.take(i) + t.subrange(i, j));
    lemma_measure_concat(t.take(i), t.subrange(i, j), enc);
}

/// One more character adds its width to the size of a prefix.
pub proof fn lemma_measure_step(s: Seq<char>, k: int, enc: Encoding)
    requires
        0 <= k < s.len(),
    ensures
        measure(s.take(k + 1), enc) == measure(s.take(k), enc) + width(s[k], enc),
{
    assert(s.take(k + 1).drop_last() =~= s.take(k));
}

/// A longer prefix is larger by at least one unit per extra character.
pub proof fn lemma_measure_grows(s: Seq<char>, i: int, j: int, enc: Encoding)
    requires
        0 <= i <= j <= s.len(),
    ensures
        measure(s.take(i), enc) + (j - i) <= measure(s.take(j), enc),
    decreases j - i,
{
    if i < j {
        lemma_measure_grows(s, i, j - 1, enc);
        lemma_measure_step(s, j - 1, enc);
    }
}

/// What `fit` returns: a prefix within the budget that cannot be extended.
pub proof fn lemma_fit_is_longest(s: Seq<char>, budget: int, enc: Encoding)
    requires
        0 <= budget,
    ensures
        0 <= fit(s, budget, enc) <= s.len(),
        measure(s.take(fit(s, budget, enc)), enc) <= budget,
        fit(s, budget, enc) < s.len() ==> measure(s.take(fit(s, budget, enc) + 1), enc) > budget,
    decreases s.len(),
{
    if s.len() == 0 {
        assert(s.take(0) =~= s);
    } else if measure(s, enc) <= budget {
        assert(s.take(s.len() as int) =~= s);
    } else {
        let t = s.drop_last();
        lemma_fit_is_longest(t, budget, enc);
        let k = fit(t, budget, enc);
        assert(t.take(k) =~= s.take(k));
        if k < t.len() {
            assert(t.take(k + 1) =~= s.take(k + 1));
        } else {
            assert(s.take(k + 1) =~= s);
        }
    }
}

/// A prefix within the budget that cannot be extended is the one `fit` finds.
pub proof fn lemma_fit_unique(s: Seq<char>, budget: int, k: int, enc: Encoding)
    requires
        0 <= k <= s.len(),
        measure(s.take(k), enc) <= budget,
        k < s.len() ==> measure(s.take(k + 1), enc) > budget,
    ensures
        fit(s, budget, enc) == k,
{
    lemma_fit_is_longest(s, budget, enc);
    let f = fit(s, budget, enc);
    if f < k {
        lemma_measure_grows(s, f + 1, k, enc);
    } else if k < f {
        lemma_measure_grows(s, k + 1, f, enc);
    }
}

/// The size of a prefix is a boundary, and `fit` recovers the prefix from it.
pub proof fn lemma_fit_of_prefix(s: Seq<char>, k: int, enc: Encoding)
    requires
        0 <= k <= s.len(),
    ensures
        fit(s, measure(s.take(k), enc) as int, enc) == k,
        on_boundary(s, measure(s.take(k), enc) as int, enc),
{
    if k < s.len() {
        lemma_measure_step(s, k, enc);
    }
    lemma_fit_unique(s, measure(s.take(k), enc) as int, k, enc);
}

/// The UTF-8 size of a text is the length of its encoding.
pub proof fn lemma_measure_is_encoded_len(s: Seq<char>)
    ensures
        encode_utf8(s).len() == measure(s, Encoding::Utf8),
    decreases s.len(),
{
    if s.len() > 0 {
        let c = s[0];
        let rest = s.drop_first();
        lemma_measure_is_encoded_len(rest);
        let one = seq![c];
        assert(s =~= one + rest);
        lemma_measure_concat(one, rest, Encoding::Utf8);
        assert(one.len() == 1 && one.last() == c);
        assert(one.drop_last().len() == 0);
        assert(measure(one.drop_last(), Encoding::Utf8) == 0);
        assert(measure(one, Encoding::Utf8) == width(c, Encoding::Utf8));
        char_is_scalar(c);
        assert(encode_scalar(c as u32).len() == width(c, Encoding::Utf8));
    }
}

/// Whether the character at index `i` ends a line: a line feed, or a carriage
/// return that no line feed follows.
pub open spec fn ends_line(t: Seq<char>, i: int) -> bool {
    &&& 0 <= i < t.len()
    &&& (t[i] == '\n' || (t[i] == '\r' && !(i + 1 < t.len() && t[i + 1] == '\n')))
}

/// The index one past the line that starts at `from`: just behind the first
/// line ending at or after `from`, or the end of the text.
pub open spec fn line_end(t: Seq<char>, from: int) -> int
    decreases t.len() - from,
{
    if from < 0 || from >= t.len() {
        t.len() as int
    } else if ends_line(t, from) {
        from + 1
    } else {
        line_end(t, from + 1)
    }
}

/// The index at which line number `line` starts. Lines keep their ending.
pub open spec fn line_start(t: Seq<char>, line: nat) -> int
    decreases line,
{
    if line == 0 {
        0
    } else {
        line_end(t, line_start(t, (line - 1) as nat))
    }
}

/// Whether the text has a line number `line`. Every text has line 0, and
/// behind every non-empty line there is one more; the last is always empty.
pub open spec fn has_line(t: Seq<char>, line: nat) -> bool {
    line == 0 || line_start(t, (line - 1) as nat) < t.len()
}

/// The characters of line number `line`, its ending included.
pub open spec fn line_text(t: Seq<char>, line: nat) -> Seq<char> {
    t.subrange(line_start(t, line), line_end(t, line_start(t, line)))
}

/// A line that starts inside the text ends behind its start and inside the text.
pub proof fn lemma_line_end_bounds(t: Seq<char>, from: int)
    requires
        0 <= from <= t.len(),
    ensures
        from <= line_end(t, from) <= t.len(),
        from < t.len() ==> from < line_end(t, from),
    decreases t.len() - from,
{
    if from < t.len() && !ends_line(t, from) {
        lemma_line_end_bounds(t, from + 1);
    }
}

/// Every line starts inside the text.
pub proof fn lemma_line_start_bounds(t: Seq<char>, line: nat)
    ensures
        0 <= line_start(t, line) <= t.len(),
        line_start(t, line) <= line_end(t, line_start(t, line)) <= t.len(),
    decreases line,
{
    if line > 0 {
        lemma_line_start_bounds(t, (line - 1) as nat);
    }
    lemma_line_end_bounds(t, line_start(t, line));
}

/// How many lines lie between the line that starts at `from` and the line
/// that holds index `i`. An index at the end of the text is held by the last
/// line that has characters.
pub open spec fn lines_before(t: Seq<char>, from: int, i: int) -> nat
    decreases t.len() - from,
{
    let end = line_end(t, from);
    if from < 0 || from >= t.len() || end <= from || i < end || end >= t.len() {
        0
    } else {
        1 + lines_before(t, end, i)
    }
}

/// The number of the line that holds index `i`.
pub open spec fn line_at(t: Seq<char>, i: int) -> nat {
    lines_before(t, 0, i)
}

/// Line starts do not decrease with the line number.
pub proof fn lemma_line_start_grows(t: Seq<char>, j: nat, k: nat)
    requires
        j <= k,
    ensures
        line_start(t, j) <= line_start(t, k),
    decreases k - j,
{
    if j < k {
        lemma_line_start_grows(t, j, (k - 1) as nat);
        lemma_line_start_bounds(t, (k - 1) as nat);
    }
}

/// Counting on from line `k` finds a line that the text has and that holds
/// the index.
pub proof fn lemma_lines_before(t: Seq<char>, k: nat, i: int)
    requires
        has_line(t, k),
        line_start(t, k) <= i <= t.len(),
    ensures
        has_line(t, k + lines_before(t, line_start(t, k), i)),
        line_start(t, k + lines_before(t, line_start(t, k), i)) <= i,
        i <= line_end(t, line_start(t, k + lines_before(t, line_start(t, k), i))),
        k + lines_before(t, line_start(t, k), i) <= k + (i - line_start(t, k)),
    decreases t.len() - line_start(t, k),
{
    let from = line_start(t, k);
    lemma_line_start_bounds(t, k);
    lemma_line_end_bounds(t, from);
    let end = line_end(t, from);
    if !(from >= t.len() || end <= from || i < end || end >= t.len()) {
        lemma_lines_before(t, k + 1, i);
    }
}

/// The line that holds an index is a line of the text, and the index lies
/// on it.
pub proof fn lemma_line_at(t: Seq<char>, i: int)
    requires
        0 <= i <= t.len(),
    ensures
        has_line(t, line_at(t, i)),
        line_start(t, line_at(t, i)) <= i <= line_end(t, line_start(t, line_at(t, i))),
        line_at(t, i) <= i,
{
    lemma_lines_before(t, 0, i);
}

/// An index on line `k`, before the end of that line or at the end of the
/// text, is held by line `k`, provided that line has characters or is the
/// first.
pub proof fn lemma_line_at_is(t: Seq<char>, k: nat, i: int)
    requires
        has_line(t, k),
        k == 0 || line_start(t, k) < t.len(),
        line_start(t, k) <= i <= line_end(t, line_start(t, k)),
        i < line_end(t, line_start(t, k)) || line_end(t, line_start(t, k)) == t.len(),
    ensures
        line_at(t, i) == k,
{
    lemma_counts_to(t, 0, k, i);
}

/// Counting from an earlier line `j` up to the line `k` that holds the index.
proof fn lemma_counts_to(t: Seq<char>, j: nat, k: nat, i: int)
    requires
        j <= k,
        has_line(t, k),
        k == 0 || line_start(t, k) < t.len(),
        line_start(t, k) <= i <= line_end(t, line_start(t, k)),
        i < line_end(t, line_start(t, k)) || line_end(t, line_start(t, k)) == t.len(),
    ensures
        lines_before(t, line_start(t, j), i) == k - j,
    decreases k - j,
{
    lemma_line_start_bounds(t, j);
    lemma_line_start_bounds(t, k);
    if j < k {
        lemma_line_start_grows(t, j + 1, k);
        lemma_line_end_bounds(t, line_start(t, j));
        lemma_counts_to(t, j + 1, k, i);
    } else {
        lemma_line_end_bounds(t, line_start(t, k));
    }
}

/// A budget that covers the whole text fits all of it.
pub proof fn lemma_fit_all(s: Seq<char>, budget: int, enc: Encoding)
    requires
        measure(s, enc) <= budget,
    ensures
        fit(s, budget, enc) == s.len(),
{
}

/// Whether a text holds no line feed and no carriage return.
pub open spec fn no_breaks(s: Seq<char>) -> bool {
    forall|j: int| 0 <= j < s.len() ==> #[trigger] s[j] != '\n' && s[j] != '\r'
}

/// The text with `s` put in at index `i`.
pub open spec fn inserted(t: Seq<char>, i: int, s: Seq<char>) -> Seq<char> {
    t.take(i) + s + t.skip(i)
}

/// A line that ends before the end of the text ends with a line ending.
pub proof fn lemma_line_end_is_ending(t: Seq<char>, from: int)
    requires
        0 <= from < t.len(),
        line_end(t, from) < t.len(),
    ensures
        ends_line(t, line_end(t, from) - 1),
    decreases t.len() - from,
{
    if !ends_line(t, from) {
        lemma_line_end_bounds(t, from + 1);
        lemma_line_end_is_ending(t, from + 1);
    }
}

/// A line runs on over characters that are no line breaks.
pub proof fn lemma_line_runs_on(t: Seq<char>, a: int, b: int)
    requires
        0 <= a <= b <= t.len(),
        no_breaks(t.subrange(a, b)),
    ensures
        line_end(t, a) == line_end(t, b),
    decreases b - a,
{
    if a < b {
        assert(t[a] == t.subrange(a, b)[0]);
        assert forall|j: int| 0 <= j < b - (a + 1) implies #[trigger] t.subrange(a + 1, b)[j]
            != '\n' && t.subrange(a + 1, b)[j] != '\r' by {
            assert(t.subrange(a + 1, b)[j] == t.subrange(a, b)[j + 1]);
        }
        lemma_line_runs_on(t, a + 1, b);
    }
}

/// Putting in text without line breaks leaves a line that ends before it as
/// it was.
pub proof fn lemma_insert_keeps_line(t: Seq<char>, i: int, s: Seq<char>, from: int)
    requires
        0 <= from < line_end(t, from) <= i <= t.len(),
        ends_line(t, line_end(t, from) - 1),
        no_breaks(s),
    ensures
        line_end(inserted(t, i, s), from) == line_end(t, from),
    decreases line_end(t, from) - from,
{
    let after = inserted(t, i, s);
    let end = line_end(t, from);
    assert(after[from] == t[from]);
    if from + 1 < i {
        assert(after[from + 1] == t[from + 1]);
    } else if s.len() > 0 {
        assert(after[from + 1] == s[0]);
    } else {
        assert(after =~= t);
    }
    if ends_line(t, from) {
        assert(ends_line(after, from));
    } else {
        lemma_line_end_bounds(t, from + 1);
        assert(from + 1 < end);
        assert(!ends_line(after, from));
        lemma_insert_keeps_line(t, i, s, from + 1);
    }
}

/// Putting in text without line breaks on a line leaves the start of that
/// line and of every line before it where it was, provided the line begins
/// the text or follows a line ending.
pub proof fn lemma_insert_keeps_starts(t: Seq<char>, i: int, s: Seq<char>, line: nat, j: nat)
    requires
        j <= line,
        has_line(t, line),
        line == 0 || ends_line(t, line_start(t, line) - 1),
        line_start(t, line) <= i <= t.len(),
        no_breaks(s),
    ensures
        line_start(inserted(t, i, s), j) == line_start(t, j),
    decreases j,
{
    if j > 0 {
        let before = (j - 1) as nat;
        lemma_insert_keeps_starts(t, i, s, line, before);
        let start = line_start(t, before);
        lemma_line_start_bounds(t, before);
        lemma_line_start_grows(t, before, (line - 1) as nat);
        lemma_line_start_grows(t, j, line);
        lemma_line_end_bounds(t, start);
        if j < line {
            lemma_line_start_grows(t, j, (line - 1) as nat);
            lemma_line_end_is_ending(t, start);
        }
        lemma_insert_keeps_line(t, i, s, start);
    }
}

/// How far a scan got into a text: the characters passed and their size in
/// both encodings.
#[derive(Clone, Copy, Debug)]
pub struct Span {
    pub chars: usize,
    pub bytes: usize,
    pub units: usize,
}

/// In UTF-16 a character is never larger than in UTF-8, and a text has at
/// most as many characters as code units.
pub proof fn lemma_measure_order(s: Seq<char>)
    ensures
        s.len() <= measure(s, Encoding::Utf16) <= measure(s, Encoding::Utf8),
    decreases s.len(),
{
    if s.len() > 0 {
        lemma_measure_order(s.drop_last());
    }
}

/// Walks `s` from its start for as long as the size passed, counted in `by`,
/// stays within `budget`, and reports how far it got.
pub fn scan_prefix(s: &str, budget: usize, by: Encoding) -> (r: Span)
    ensures
        r.chars == fit(s@, budget as int, by),
        0 <= r.chars <= s@.len(),
        r.bytes == measure(s@.take(r.chars as int), Encoding::Utf8),
        r.units == measure(s@.take(r.chars as int), Encoding::Utf16),
{
    let total: usize = s.as_bytes().len();
    proof {
        lemma_measure_is_encoded_len(s@);
        assert(s.spec_bytes() == encode_utf8(s@));
        assert(s@.take(0) =~= Seq::<char>::empty());
    }
    let mut it = s.chars();
    let mut chars: usize = 0;
    let mut bytes: usize = 0;
    let mut units: usize = 0;
    loop
        invariant_except_break
            it.remaining() == s@.skip(chars as int),
        invariant
            0 <= chars <= s@.len(),
            bytes == measure(s@.take(chars as int), Encoding::Utf8),
            units == measure(s@.take(chars as int), Encoding::Utf16),
            measure(s@.take(chars as int), by) <= budget,
            measure(s@, Encoding::Utf8) == total,
        ensures
            0 <= chars <= s@.len(),
            bytes == measure(s@.take(chars as int), Encoding::Utf8),
            units == measure(s@.take(chars as int), Encoding::Utf16),
            chars == fit(s@, budget as int, by),
        decreases s@.len() - chars,
    {
        let used: usize = match by {
            Encoding::Utf8 => bytes,
            Encoding::Utf16 => units,
        };
        match it.next() {
            None => {
                proof {
                    lemma_fit_unique(s@, budget as int, chars as int, by);
                }
                break ;
            },
            Some(c) => {
                assert(c == s@[chars as int]);
                let w: usize = char_width(c, by);
                proof {
                    lemma_measure_step(s@, chars as int, Encoding::Utf8);
                    lemma_measure_step(s@, chars as int, Encoding::Utf16);
                    lemma_measure_grows(s@, chars as int + 1, s@.len() as int, Encoding::Utf8);
                    assert(s@.take(s@.len() as int) =~= s@);
                    lemma_measure_order(s@.take(chars as int + 1));
                }
                if w > budget - used {
                    proof {
                        lemma_fit_unique(s@, budget as int, chars as int, by);
                    }
                    break ;
                }
                bytes = bytes + char_width(c, Encoding::Utf8);
                units = units + char_width(c, Encoding::Utf16);
                chars = chars + 1;
                assert(it.remaining() == s@.skip(chars as int)) by {
                    assert(s@.skip(chars as int - 1).drop_first() =~= s@.skip(chars as int));
                }
            },
        }
    }
    Span { chars, bytes, units }
}

} // verus!
