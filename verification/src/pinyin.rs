//! Finding the pinyin fragment: the run of lowercase Latin letters that ends
//! at the cursor.

use crate::index::{line_before, position_exact};
use crate::store::Document;
use crate::text::{lemma_measure_is_encoded_len, lemma_measure_order, measure, Encoding};
use crate::types::Position;
use vstd::prelude::*;
use vstd::std_specs::iter::IteratorSpec;
use vstd::string::{StrSliceExecFns, StringSliceAdditionalSpecFns};
use vstd::utf8::encode_utf8;

verus! {

/// Whether a character is an unaccented lowercase Latin letter.
pub open spec fn is_lower(c: char) -> bool {
    'a' <= c <= 'z'
}

/// The number of lowercase letters at the end of `s`, back to its start or
/// to the last character that is no lowercase letter.
pub open spec fn letters_at_end(s: Seq<char>) -> nat
    decreases s.len(),
{
    if s.len() == 0 || !is_lower(s.last()) {
        0
    } else {
        1 + letters_at_end(s.drop_last())
    }
}

/// The pinyin fragment of the text before a cursor: its longest suffix of
/// lowercase letters.
pub open spec fn fragment(s: Seq<char>) -> Seq<char> {
    s.skip(s.len() - letters_at_end(s))
}

/// Whether `s` can be looked up: it is not empty and holds lowercase letters
/// only.
pub open spec fn is_fragment(s: Seq<char>) -> bool {
    &&& s.len() > 0
    &&& forall|i: int| 0 <= i < s.len() ==> is_lower(#[trigger] s[i])
}

/// The letters at the end of a text are part of it, are all lowercase, and
/// cannot be extended to the left.
pub proof fn lemma_letters_at_end(s: Seq<char>)
    ensures
        letters_at_end(s) <= s.len(),
        forall|i: int| s.len() - letters_at_end(s) <= i < s.len() ==> is_lower(#[trigger] s[i]),
        letters_at_end(s) < s.len() ==> !is_lower(s[s.len() - letters_at_end(s) - 1]),
    decreases s.len(),
{
    if s.len() > 0 && is_lower(s.last()) {
        let front = s.drop_last();
        lemma_letters_at_end(front);
        assert forall|i: int| s.len() - letters_at_end(s) <= i < s.len() implies is_lower(
            #[trigger] s[i],
        ) by {
            if i < front.len() {
                assert(s[i] == front[i]);
            }
        }
        if letters_at_end(s) < s.len() {
            assert(s[s.len() - letters_at_end(s) - 1] == front[front.len() - letters_at_end(front)
                - 1]);
        }
    }
}

/// A lowercase letter is one byte and one code unit, so a run of them
/// measures as many as it has letters.
pub proof fn lemma_letters_measure(s: Seq<char>, enc: Encoding)
    requires
        forall|i: int| 0 <= i < s.len() ==> is_lower(#[trigger] s[i]),
    ensures
        measure(s, enc) == s.len(),
    decreases s.len(),
{
    if s.len() > 0 {
        let front = s.drop_last();
        assert forall|i: int| 0 <= i < front.len() implies is_lower(#[trigger] front[i]) by {
            assert(front[i] == s[i]);
        }
        lemma_letters_measure(front, enc);
        assert(is_lower(s[s.len() - 1]));
    }
}

/// The part of the cursor's line before the cursor, when the document is
/// open and the cursor names a point of its text.
pub fn get_pre_line<'a>(document: &'a Option<Document<'a>>, position: &Position) -> (r: Option<
    &'a str,
>)
    ensures
        document is Some && position_exact(document.unwrap()@, *position) ==> r is Some
            && r.unwrap()@ == line_before(document.unwrap()@, *position),
        !(document is Some && position_exact(document.unwrap()@, *position)) ==> r is None,
{
    match document {
        Some(doc) => doc.index().line_before(*position),
        None => None,
    }
}

/// The pinyin fragment at the end of `pre_line`, if there is one.
pub fn get_pinyin(pre_line: &str) -> (r: Option<String>)
    ensures
        letters_at_end(pre_line@) == 0 ==> r is None,
        letters_at_end(pre_line@) > 0 ==> r is Some && r.unwrap()@ == fragment(pre_line@),
        r is Some ==> is_fragment(r.unwrap()@),
{
    let ghost s = pre_line@;
    let total: usize = pre_line.as_bytes().len();
    proof {
        lemma_measure_is_encoded_len(s);
        lemma_measure_order(s);
        assert(pre_line.spec_bytes() == encode_utf8(s));
        assert(s.take(0) =~= Seq::<char>::empty());
    }
    let mut it = pre_line.chars();
    let mut chars: usize = 0;
    let mut run: usize = 0;
    loop
        invariant_except_break
            it.remaining() == s.skip(chars as int),
        invariant
            0 <= run <= chars <= s.len() <= total,
            run == letters_at_end(s.take(chars as int)),
        ensures
            chars == s.len(),
        decreases s.len() - chars,
    {
        match it.next() {
            None => {
                break ;
            },
            Some(c) => {
                assert(c == s[chars as int]);
                proof {
                    assert(s.take(chars as int + 1).drop_last() =~= s.take(chars as int));
                    assert(s.skip(chars as int).drop_first() =~= s.skip(chars as int + 1));
                }
                if 'a' <= c && c <= 'z' {
                    run = run + 1;
                } else {
                    run = 0;
                }
                chars = chars + 1;
            },
        }
    }
    proof {
        assert(s.take(s.len() as int) =~= s);
        lemma_letters_at_end(s);
    }
    if run == 0 {
        None
    } else {
        let found = pre_line.substring_char(chars - run, chars);
        proof {
            assert(found@ =~= fragment(s));
        }
        Some(found.to_owned())
    }
}

/// Whether `s` can be looked up.
pub fn check_fragment(s: &str) -> (ok: bool)
    ensures
        ok == is_fragment(s@),
{
    let ghost t = s@;
    let mut it = s.chars();
    let mut seen: bool = false;
    let ghost mut passed: int = 0;
    loop
        invariant_except_break
            it.remaining() == t.skip(passed),
            seen == (passed > 0),
            forall|i: int| 0 <= i < passed ==> is_lower(#[trigger] t[i]),
        invariant
            0 <= passed <= t.len(),
        ensures
            seen == is_fragment(t),
        decreases t.len() - passed,
    {
        match it.next() {
            None => {
                break ;
            },
            Some(c) => {
                assert(c == t[passed]);
                proof {
                    assert(t.skip(passed).drop_first() =~= t.skip(passed + 1));
                }
                if !('a' <= c && c <= 'z') {
                    seen = false;
                    break ;
                }
                seen = true;
                proof {
                    passed = passed + 1;
                }
            },
        }
    }
    seen
}

} // verus!
