//! Answering a completion request: the fragment before the cursor, the
//! lookup, and the list of items that all replace the same span.

use crate::index::{line_before, position_exact, position_index};
use crate::pinyin::{
    fragment, get_pinyin, get_pre_line, is_lower, lemma_letters_at_end, lemma_letters_measure,
};
use crate::resolver::{resolve, Candidate};
use crate::session::Session;
use crate::store::DocumentStore;
use crate::text::{
    fit, lemma_fit_is_longest, lemma_fit_of_prefix, lemma_line_start_bounds, lemma_measure_order,
    lemma_measure_split, line_start, line_text, Encoding,
};
use crate::types::{Position, Range};
use vstd::prelude::*;
use vstd::string::StrSliceExecFns;

verus! {

/// One item of a completion response: what is shown, what is inserted, and
/// the span that the insertion replaces.
#[derive(Debug)]
pub struct CompletionItem {
    pub label: String,
    pub insert_text: String,
    pub range: Range,
}

/// A list of items that is not final: the editor is to ask again on the next
/// keystroke instead of filtering the list itself.
#[derive(Debug)]
pub struct CompletionList {
    pub is_incomplete: bool,
    pub items: Vec<CompletionItem>,
}

/// The answer to a completion request.
#[derive(Debug)]
pub enum CompletionResponse {
    /// A plain list; the library only ever answers with an empty one.
    Array(Vec<CompletionItem>),
    /// A ranked, open-ended list.
    List(CompletionList),
}

/// The fragment that a request at `position` is about: the lowercase letters
/// that end at the cursor, if the document is open and the cursor names a
/// point of its text; nothing otherwise.
pub open spec fn fragment_at(docs: Map<Seq<char>, Seq<char>>, uri: Seq<char>, position: Position) -> Seq<
    char,
> {
    if docs.contains_key(uri) && position_exact(docs[uri], position) {
        fragment(line_before(docs[uri], position))
    } else {
        Seq::empty()
    }
}

/// The span that a fragment of `length` letters takes up before the cursor.
pub open spec fn replaced(position: Position, length: nat) -> Range {
    Range {
        start: Position { line: position.line, character: (position.character - length) as u32 },
        end: position,
    }
}

/// Whether an item offers `text` for the span `range`.
pub open spec fn offers(item: CompletionItem, text: Seq<char>, range: Range) -> bool {
    &&& item.label@ == text
    &&& item.insert_text@ == text
    &&& item.range == range
}

/// The items of a response, in order.
pub open spec fn answer_items(response: CompletionResponse) -> Seq<CompletionItem> {
    match response {
        CompletionResponse::Array(items) => items@,
        CompletionResponse::List(list) => list.items@,
    }
}

/// Whether a response is the empty plain list.
pub open spec fn is_empty_answer(response: CompletionResponse) -> bool {
    response is Array && answer_items(response).len() == 0
}

/// Whether a response is an open-ended list with at least one item.
pub open spec fn is_open_list(response: CompletionResponse) -> bool {
    response is List && response->List_0.is_incomplete && answer_items(response).len() > 0
}

/// The span that a fragment of `length` letters, ending at the cursor, takes
/// up. Its letters are one code unit each, so the span is `length` columns
/// wide and ends at the cursor.
pub fn replacement_range(position: Position, length: u32) -> (range: Range)
    requires
        length <= position.character,
    ensures
        range == replaced(position, length as nat),
        range.end == position,
        range.start.line == position.line,
        range.end.character - range.start.character == length,
{
    Range {
        start: Position { line: position.line, character: position.character - length },
        end: position,
    }
}

/// Turns suggestions into items, one for one and in order; every item
/// replaces the same span.
pub fn suggest_to_completion_item(suggest: Vec<Candidate>, range: Range) -> (items: Vec<
    CompletionItem,
>)
    ensures
        items@.len() == suggest@.len(),
        forall|i: int| 0 <= i < items@.len() ==> offers(#[trigger] items@[i], suggest@[i].text@, range),
{
    let ghost all = suggest@;
    let mut items: Vec<CompletionItem> = Vec::new();
    for candidate in it: suggest
        invariant
            it.seq() == all,
            items@.len() == it.index(),
            forall|i: int| 0 <= i < items@.len() ==> offers(#[trigger] items@[i], all[i].text@, range),
    {
        let label = candidate.text.clone();
        items.push(CompletionItem { label, insert_text: candidate.text, range });
    }
    items
}

/// The response for what the lookup found: nothing gives an empty plain
/// list, anything else an open-ended list of its items.
pub fn assemble(found: Vec<Candidate>, range: Range) -> (response: CompletionResponse)
    ensures
        found@.len() == 0 ==> is_empty_answer(response),
        found@.len() > 0 ==> is_open_list(response),
        answer_items(response).len() == found@.len(),
        forall|i: int|
            0 <= i < found@.len() ==> offers(
                #[trigger] answer_items(response)[i],
                found@[i].text@,
                range,
            ),
{
    if found.len() == 0 {
        CompletionResponse::Array(Vec::new())
    } else {
        CompletionResponse::List(
            CompletionList { is_incomplete: true, items: suggest_to_completion_item(found, range) },
        )
    }
}

/// A fragment is never longer than the column of the cursor it ends at.
pub proof fn lemma_fragment_fits(t: Seq<char>, position: Position)
    requires
        position_exact(t, position),
    ensures
        fragment(line_before(t, position)).len() <= position.character,
{
    let line = line_text(t, position.line as nat);
    let k = fit(line, position.character as int, Encoding::Utf16);
    lemma_line_start_bounds(t, position.line as nat);
    lemma_fit_is_longest(line, position.character as int, Encoding::Utf16);
    assert(line.take(k) =~= line_before(t, position));
    lemma_measure_order(line.take(k));
    lemma_letters_at_end(line_before(t, position));
}

/// The span that is replaced holds exactly the fragment: it starts at a
/// point of the text, ends at the cursor, and the characters between the two
/// are the fragment's.
pub proof fn lemma_replaced_is_fragment(t: Seq<char>, position: Position)
    requires
        position_exact(t, position),
    ensures
        fragment(line_before(t, position)).len() <= position.character,
        replaced(position, fragment(line_before(t, position)).len()).end == position,
        position_exact(t, replaced(position, fragment(line_before(t, position)).len()).start),
        t.subrange(
            position_index(t, replaced(position, fragment(line_before(t, position)).len()).start),
            position_index(t, position),
        ) == fragment(line_before(t, position)),
{
    let line = line_text(t, position.line as nat);
    let first = line_start(t, position.line as nat);
    let k = fit(line, position.character as int, Encoding::Utf16);
    let before = line_before(t, position);
    let found = fragment(before);
    let n = found.len() as int;
    lemma_fragment_fits(t, position);
    lemma_line_start_bounds(t, position.line as nat);
    lemma_fit_is_longest(line, position.character as int, Encoding::Utf16);
    assert(line.take(k) =~= before);
    lemma_letters_at_end(before);
    assert(n <= k);
    assert forall|i: int| 0 <= i < found.len() implies is_lower(#[trigger] found[i]) by {
        assert(found[i] == before[k - n + i]);
    }
    lemma_letters_measure(found, Encoding::Utf16);
    lemma_measure_split(line, k - n, k, Encoding::Utf16);
    assert(line.subrange(k - n, k) =~= found);
    lemma_fit_of_prefix(line, k - n, Encoding::Utf16);
    assert(t.subrange(first + k - n, first + k) =~= found);
}

/// Answers a completion request. Where there is no fragment before the
/// cursor, or no store, the answer is empty and no lookup is run. Otherwise
/// the answer is what the store gives for the fragment: empty, or an
/// open-ended list whose items all replace the fragment.
pub fn completion(store: &DocumentStore, session: &Session, uri: &str, position: Position) -> (response:
    CompletionResponse)
    ensures
        is_empty_answer(response) || is_open_list(response),
        fragment_at(store@, uri@, position).len() == 0 || session.handle() is None
            ==> is_empty_answer(response),
        fragment_at(store@, uri@, position).len() <= position.character,
        forall|i: int|
            0 <= i < answer_items(response).len() ==> {
                &&& (#[trigger] answer_items(response)[i]).range == replaced(
                    position,
                    fragment_at(store@, uri@, position).len(),
                )
                &&& answer_items(response)[i].label@ == answer_items(response)[i].insert_text@
            },
{
    let document = store.get(uri);
    let pre_line: &str = match get_pre_line(&document, &position) {
        Some(line) => line,
        None => {
            return CompletionResponse::Array(Vec::new());
        },
    };
    let pinyin: String = match get_pinyin(pre_line) {
        Some(found) => found,
        None => {
            proof {
                lemma_letters_at_end(pre_line@);
            }
            return CompletionResponse::Array(Vec::new());
        },
    };
    proof {
        lemma_fragment_fits(store@[uri@], position);
    }
    let length: usize = pinyin.as_str().unicode_len();
    let range = replacement_range(position, length as u32);
    match session.connection() {
        Some(conn) => assemble(resolve(conn, pinyin.as_str()), range),
        None => CompletionResponse::Array(Vec::new()),
    }
}

} // verus!
