//! The documents that are open, by identity.
//!
//! The map is a `dashmap::DashMap`. Every operation that changes it takes
//! the store exclusively, so edits of one document apply strictly in the
//! order in which they are handed in.

use crate::index::{
    applied, lemma_insert_then_delete, lemma_offset_round_trip, moved_right, offset_position,
    position_inside, position_offset, TextIndex, MAX_TEXT_BYTES,
};
use crate::text::{measure, no_breaks, on_boundary, Encoding};
use crate::types::{Change, Position, Range};
use dashmap::mapref::one::Ref;
use dashmap::DashMap;
use vstd::prelude::*;

verus! {

/// `dashmap::DashMap`: a concurrent hash map. Opaque here; `documents` names
/// what a map of documents holds.
#[verifier::external_type_specification]
#[verifier::external_body]
#[verifier::reject_recursive_types(K)]
#[verifier::reject_recursive_types(V)]
#[verifier::reject_recursive_types(S)]
pub struct ExDashMap<K, V, S>(DashMap<K, V, S>);

/// `dashmap::mapref::one::Ref`: shared access to one entry of a map, held
/// for as long as the value lives. Opaque here; `guarded` names the text of
/// the document it gives access to.
#[verifier::external_type_specification]
#[verifier::external_body]
#[verifier::reject_recursive_types(K)]
#[verifier::reject_recursive_types(V)]
#[verifier::reject_recursive_types(S)]
pub struct ExRef<'a, K, V, S>(Ref<'a, K, V, S>);

/// What a map of documents holds: the text of each document by identity.
pub uninterp spec fn documents(m: DashMap<String, TextIndex>) -> Map<Seq<char>, Seq<char>>;

/// The text of the document that an entry gives access to.
pub uninterp spec fn guarded(r: Ref<'_, String, TextIndex>) -> Seq<char>;

/// The content of a store in which no document is open.
pub open spec fn no_documents() -> Map<Seq<char>, Seq<char>> {
    Map::empty()
}

/// `DashMap::new`. Trusted: the new map holds nothing.
#[verifier::external_body]
fn docs_new() -> (fresh: DashMap<String, TextIndex>)
    ensures
        documents(fresh) == no_documents(),
{
    DashMap::new()
}

/// `DashMap::insert`. Trusted: afterwards the key maps to the new document
/// and every other key is as before.
#[verifier::external_body]
fn docs_insert(m: &mut DashMap<String, TextIndex>, uri: String, doc: TextIndex)
    ensures
        documents(*final(m)) == documents(*old(m)).insert(uri@, doc@),
{
    m.insert(uri, doc);
}

/// `DashMap::remove`. Trusted: afterwards the key is absent and every other
/// key is as before.
#[verifier::external_body]
fn docs_remove(m: &mut DashMap<String, TextIndex>, uri: &str)
    ensures
        documents(*final(m)) == documents(*old(m)).remove(uri@),
{
    m.remove(uri);
}

/// `DashMap::get`. Trusted: an entry comes back exactly for a key that the
/// map holds, and gives access to that key's document.
#[verifier::external_body]
fn docs_get<'a>(m: &'a DashMap<String, TextIndex>, uri: &str) -> (r: Option<
    Ref<'a, String, TextIndex>,
>)
    ensures
        r is Some <==> documents(*m).contains_key(uri@),
        r is Some ==> guarded(r.unwrap()) == documents(*m)[uri@],
{
    m.get(uri)
}

/// `Ref::value`. Trusted: the document that the entry gives access to.
#[verifier::external_body]
fn guard_value<'a>(r: &'a Ref<'a, String, TextIndex>) -> (doc: &'a TextIndex)
    ensures
        doc@ == guarded(*r),
{
    r.value()
}

/// Shared access to one open document.
pub struct Document<'a> {
    guard: Ref<'a, String, TextIndex>,
}

impl<'a> Document<'a> {
    /// The text of the document.
    pub closed spec fn view(&self) -> Seq<char> {
        guarded(self.guard)
    }

    /// The document's text with its index.
    pub fn index(&self) -> (doc: &TextIndex)
        ensures
            doc@ == self@,
    {
        guard_value(&self.guard)
    }
}

/// The text of a document in a store, or the empty text for an identity that
/// the store does not hold.
pub open spec fn content_of(docs: Map<Seq<char>, Seq<char>>, uri: Seq<char>) -> Seq<char> {
    if docs.contains_key(uri) {
        docs[uri]
    } else {
        Seq::<char>::empty()
    }
}

/// The text after one edit handed to the store: the edit applied, unless the
/// result is larger than an index can address, in which case the text stays.
pub open spec fn patched(t: Seq<char>, change: Change) -> Seq<char> {
    let next = applied(t, change.range, change.text@);
    if measure(next, Encoding::Utf8) <= MAX_TEXT_BYTES {
        next
    } else {
        t
    }
}

/// The text after a list of edits, applied first to last.
pub open spec fn patched_all(t: Seq<char>, changes: Seq<Change>) -> Seq<char>
    decreases changes.len(),
{
    if changes.len() == 0 {
        t
    } else {
        patched(patched_all(t, changes.drop_last()), changes.last())
    }
}

/// How many edits of a list are refused because their result would be too
/// large to index.
pub open spec fn refusals(t: Seq<char>, changes: Seq<Change>) -> nat
    decreases changes.len(),
{
    if changes.len() == 0 {
        0
    } else {
        let before = patched_all(t, changes.drop_last());
        let last = changes.last();
        if measure(applied(before, last.range, last.text@), Encoding::Utf8) <= MAX_TEXT_BYTES {
            refusals(t, changes.drop_last())
        } else {
            refusals(t, changes.drop_last()) + 1
        }
    }
}

/// An edit without a span replaces the whole text: afterwards the text is
/// exactly the new text, whatever it was before.
pub proof fn lemma_full_replacement(t: Seq<char>, change: Change)
    requires
        change.range is None,
        measure(change.text@, Encoding::Utf8) <= MAX_TEXT_BYTES,
    ensures
        patched(t, change) == change.text@,
{
}

/// A list of one edit without a span replaces the whole text: afterwards
/// the text is exactly the new text, and nothing of the old text is left.
pub proof fn lemma_full_replacement_alone(t: Seq<char>, change: Change)
    requires
        change.range is None,
        measure(change.text@, Encoding::Utf8) <= MAX_TEXT_BYTES,
    ensures
        patched_all(t, seq![change]) == change.text@,
{
    let one = seq![change];
    assert(one.drop_last() =~= Seq::<Change>::empty());
    assert(patched_all(t, one.drop_last()) == t);
    assert(one.last() == change);
}

/// Every edit of a list is applied to the text that the edits before it
/// left, never to the text that the list started from; an edit whose result
/// fits the index gives exactly that result.
pub proof fn lemma_edits_in_turn(t: Seq<char>, changes: Seq<Change>, i: int)
    requires
        0 <= i < changes.len(),
    ensures
        patched_all(t, changes.take(i + 1)) == patched(
            patched_all(t, changes.take(i)),
            changes[i],
        ),
        measure(
            applied(patched_all(t, changes.take(i)), changes[i].range, changes[i].text@),
            Encoding::Utf8,
        ) <= MAX_TEXT_BYTES ==> patched_all(t, changes.take(i + 1)) == applied(
            patched_all(t, changes.take(i)),
            changes[i].range,
            changes[i].text@,
        ),
{
    assert(changes.take(i + 1).drop_last() =~= changes.take(i));
    assert(changes.take(i + 1).last() == changes[i]);
}

/// An edit that puts text without line breaks in at a point inside a line,
/// followed by the edit that deletes the columns it took, gives the text as
/// it was before the two.
pub proof fn lemma_insert_then_delete_edits(t: Seq<char>, p: Position, put: Change, take: Change)
    requires
        measure(t, Encoding::Utf8) <= MAX_TEXT_BYTES,
        position_inside(t, p),
        no_breaks(put.text@),
        p.character + measure(put.text@, Encoding::Utf16) <= u32::MAX,
        put.range == Some(Range { start: p, end: p }),
        measure(applied(t, put.range, put.text@), Encoding::Utf8) <= MAX_TEXT_BYTES,
        take.range == Some(
            Range { start: p, end: moved_right(p, measure(put.text@, Encoding::Utf16)) },
        ),
        take.text@ == Seq::<char>::empty(),
    ensures
        patched_all(t, seq![put, take]) == t,
{
    let both = seq![put, take];
    lemma_insert_then_delete(t, p, put.text@);
    assert(both.drop_last() =~= seq![put]);
    assert(both.last() == take);
    assert(seq![put].drop_last() =~= Seq::<Change>::empty());
    assert(seq![put].last() == put);
    assert(patched_all(t, seq![put].drop_last()) == t);
    assert(patched_all(t, seq![put]) == applied(t, put.range, put.text@));
}

/// Edits never take a text over the size limit.
pub proof fn lemma_patched_all_within_limit(t: Seq<char>, changes: Seq<Change>)
    requires
        measure(t, Encoding::Utf8) <= MAX_TEXT_BYTES,
    ensures
        measure(patched_all(t, changes), Encoding::Utf8) <= MAX_TEXT_BYTES,
    decreases changes.len(),
{
    if changes.len() > 0 {
        lemma_patched_all_within_limit(t, changes.drop_last());
    }
}

/// After any list of edits, conversion between offsets and positions in
/// the text that results agrees with itself: an offset at a character
/// boundary of that text comes back from its position.
pub proof fn lemma_round_trip_after_edits(t: Seq<char>, changes: Seq<Change>, offset: int)
    requires
        measure(t, Encoding::Utf8) <= MAX_TEXT_BYTES,
        0 <= offset,
        on_boundary(patched_all(t, changes), offset, Encoding::Utf8),
    ensures
        position_offset(
            patched_all(t, changes),
            offset_position(patched_all(t, changes), offset),
        ) == offset,
{
    lemma_patched_all_within_limit(t, changes);
    lemma_offset_round_trip(patched_all(t, changes), offset);
}

/// The open documents.
pub struct DocumentStore {
    docs: DashMap<String, TextIndex>,
}

impl DocumentStore {
    /// The text of each open document by identity.
    pub closed spec fn view(&self) -> Map<Seq<char>, Seq<char>> {
        documents(self.docs)
    }

    /// A store with no document open.
    pub fn new() -> (store: DocumentStore)
        ensures
            store@ == no_documents(),
    {
        DocumentStore { docs: docs_new() }
    }

    /// Installs a document with the given text, in place of any document
    /// that had the same identity. A text too large to index is refused and
    /// the store stays as it was.
    pub fn open(&mut self, uri: String, text: String) -> (opened: bool)
        ensures
            opened <==> measure(text@, Encoding::Utf8) <= MAX_TEXT_BYTES,
            opened ==> final(self)@ == old(self)@.insert(uri@, text@),
            !opened ==> final(self)@ == old(self)@,
    {
        match TextIndex::new(text) {
            Some(doc) => {
                docs_insert(&mut self.docs, uri, doc);
                true
            },
            None => false,
        }
    }

    /// Removes a document. Closing what is not open changes nothing.
    pub fn close(&mut self, uri: &str)
        ensures
            final(self)@ == old(self)@.remove(uri@),
    {
        docs_remove(&mut self.docs, uri);
    }

    /// Shared access to a document, if it is open.
    pub fn get<'a>(&'a self, uri: &str) -> (r: Option<Document<'a>>)
        ensures
            r is Some <==> self@.contains_key(uri@),
            r is Some ==> r.unwrap()@ == self@[uri@],
    {
        match docs_get(&self.docs, uri) {
            Some(guard) => Some(Document { guard }),
            None => None,
        }
    }
    /// Applies one edit to a document. An identity that is not open stands
    /// for an empty document, which is thereby opened. An edit whose result
    /// would be too large to index is refused and the text stays as it was.
    pub fn patch(&mut self, uri: String, change: Change) -> (done: bool)
        ensures
            done <==> measure(
                applied(content_of(old(self)@, uri@), change.range, change.text@),
                Encoding::Utf8,
            ) <= MAX_TEXT_BYTES,
            final(self)@ == old(self)@.insert(uri@, patched(content_of(old(self)@, uri@), change)),
    {
        let ghost before = content_of(self@, uri@);
        let mut known: bool = true;
        let next: String = match docs_get(&self.docs, uri.as_str()) {
            Some(guard) => guard_value(&guard).apply(change),
            None => {
                known = false;
                TextIndex::empty().apply(change)
            },
        };
        match TextIndex::new(next) {
            Some(doc) => {
                docs_insert(&mut self.docs, uri, doc);
                true
            },
            None => {
                if known {
                    assert(self@ =~= self@.insert(uri@, before));
                } else {
                    docs_insert(&mut self.docs, uri, TextIndex::empty());
                }
                false
            },
        }
    }

    /// Applies a list of edits to a document, first to last, each against
    /// the text that the one before it left. Returns how many were refused.
    pub fn patch_all(&mut self, uri: String, changes: Vec<Change>) -> (refused: usize)
        ensures
            final(self)@ == old(self)@.insert(
                uri@,
                patched_all(content_of(old(self)@, uri@), changes@),
            ),
            refused == refusals(content_of(old(self)@, uri@), changes@),
    {
        let ghost before = content_of(self@, uri@);
        let ghost start = self@;
        let mut refused: usize = 0;
        let present: bool = docs_get(&self.docs, uri.as_str()).is_some();
        if !present {
            docs_insert(&mut self.docs, uri.clone(), TextIndex::empty());
        } else {
            assert(self@ =~= self@.insert(uri@, before));
        }
        let ghost all = changes@;
        let count: usize = changes.len();
        assert(all.take(0) =~= Seq::<Change>::empty());
        for change in it: changes
            invariant
                refused <= it.index(),
                refused == refusals(before, all.take(it.index() as int)),
                it.seq() == all,
                all.len() == count,
                self@ == start.insert(uri@, patched_all(before, all.take(it.index() as int))),
        {
            let ghost i = it.index() as int;
            proof {
                assert(all.take(i + 1).drop_last() =~= all.take(i));
                assert(all.take(i + 1).last() == all[i]);
            }
            let ghost mid = self@;
            let done = self.patch(uri.clone(), change);
            proof {
                assert(mid.insert(uri@, patched(content_of(mid, uri@), change)) =~= start.insert(
                    uri@,
                    patched_all(before, all.take(i + 1)),
                ));
            }
            if !done {
                refused = refused + 1;
            }
        }
        proof {
            assert(all.take(all.len() as int) =~= all);
        }
        refused
    }
}

} // verus!
