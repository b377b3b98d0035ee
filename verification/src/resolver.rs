//! Looking a fragment up in the dictionary store.
//!
//! The store is a read-only SQLite database with two tables, each with the
//! text columns `pinyin` and `hanzi`: `words` holds words of several
//! characters under their whole spelling, `dict` holds single characters
//! under their syllable. Three lookups are tried in a fixed order, and the
//! first that finds anything decides the answer.

use crate::pinyin::{check_fragment, is_fragment};
use rusqlite::Connection;
use vstd::prelude::*;
use vstd::string::StringExecFns;

verus! {

/// `rusqlite::Connection`: an open SQLite database. Opaque here.
#[verifier::external_type_specification]
#[verifier::external_body]
pub struct ExConnection(Connection);

/// `rusqlite::Error`: why a call into SQLite failed. Opaque here.
#[verifier::external_type_specification]
#[verifier::external_body]
pub struct ExSqliteError(rusqlite::Error);

/// The three lookups, in the order in which they are tried.
#[derive(Clone, Copy, Debug, PartialEq, Eq, Structural)]
pub enum Tier {
    /// Words whose whole spelling is the fragment.
    ExactWord,
    /// Words whose spelling starts with the fragment.
    PrefixWord,
    /// Single characters whose syllable is or starts with the fragment.
    Syllable,
}

/// One suggestion, as a specification sees it.
pub struct Entry {
    pub text: Seq<char>,
    pub tier: Tier,
}

/// One suggestion: the characters to offer and the lookup that found them.
#[derive(Debug)]
pub struct Candidate {
    pub text: String,
    pub tier: Tier,
}

impl View for Candidate {
    type V = Entry;

    open spec fn view(&self) -> Entry {
        Entry { text: self.text@, tier: self.tier }
    }
}

/// A failure of the dictionary store, with what the store said of it.
#[derive(Debug)]
pub struct StoreError {
    pub message: String,
}

/// The suggestions of a list, in its order.
pub open spec fn entries(found: Seq<Candidate>) -> Seq<Entry> {
    Seq::new(found.len(), |i: int| found[i]@)
}

/// The texts found, each marked with the lookup that found it.
pub open spec fn marked(texts: Seq<String>, tier: Tier) -> Seq<Entry> {
    Seq::new(texts.len(), |i: int| Entry { text: texts[i]@, tier })
}

/// What a lookup came back with: its suggestions, or nothing if it failed.
pub open spec fn outcome_of(outcome: Result<Vec<Candidate>, StoreError>) -> Option<Seq<Entry>> {
    match outcome {
        Ok(found) => Some(entries(found@)),
        Err(_) => None,
    }
}

/// Whether a lookup found anything. A lookup that failed found nothing.
pub open spec fn hit(outcome: Option<Seq<Entry>>) -> bool {
    outcome is Some && outcome.unwrap().len() > 0
}

/// What the resolver does next, as a specification sees it.
pub enum Plan {
    /// Run this lookup.
    Query(Tier),
    /// Stop with this answer.
    Finish(Seq<Entry>),
}

/// What the resolver does next: run a lookup, or stop with an answer.
#[derive(Debug)]
pub enum Action {
    Query(Tier),
    Finish(Vec<Candidate>),
}

impl View for Action {
    type V = Plan;

    open spec fn view(&self) -> Plan {
        match *self {
            Action::Query(tier) => Plan::Query(tier),
            Action::Finish(found) => Plan::Finish(entries(found@)),
        }
    }
}

/// The first step: a fragment starts with the exact-word lookup; anything
/// else is answered with nothing, without a lookup.
pub open spec fn first_plan(fragment: Seq<char>) -> Plan {
    if is_fragment(fragment) {
        Plan::Query(Tier::ExactWord)
    } else {
        Plan::Finish(Seq::empty())
    }
}

/// The step after a lookup: stop with what it found, or go on to the next
/// lookup; behind the last one stop with nothing.
pub open spec fn next_plan(tier: Tier, outcome: Option<Seq<Entry>>) -> Plan {
    if hit(outcome) {
        Plan::Finish(outcome.unwrap())
    } else {
        match tier {
            Tier::ExactWord => Plan::Query(Tier::PrefixWord),
            Tier::PrefixWord => Plan::Query(Tier::Syllable),
            Tier::Syllable => Plan::Finish(Seq::empty()),
        }
    }
}

/// The answer of the cascade for given outcomes of the three lookups: that
/// of the first lookup that found anything.
pub open spec fn cascade(
    exact: Option<Seq<Entry>>,
    prefix: Option<Seq<Entry>>,
    syllable: Option<Seq<Entry>>,
) -> Seq<Entry> {
    if hit(exact) {
        exact.unwrap()
    } else if hit(prefix) {
        prefix.unwrap()
    } else if hit(syllable) {
        syllable.unwrap()
    } else {
        Seq::empty()
    }
}

/// The lookups left from `tier` on, this one included.
pub open spec fn tiers_left(tier: Tier) -> nat {
    match tier {
        Tier::ExactWord => 3,
        Tier::PrefixWord => 2,
        Tier::Syllable => 1,
    }
}

/// The answer that stepping reaches from lookup `tier` on, where each lookup
/// that is run comes back with the outcome given for it.
pub open spec fn run_from(
    tier: Tier,
    exact: Option<Seq<Entry>>,
    prefix: Option<Seq<Entry>>,
    syllable: Option<Seq<Entry>>,
) -> Seq<Entry>
    decreases tiers_left(tier),
{
    let outcome = match tier {
        Tier::ExactWord => exact,
        Tier::PrefixWord => prefix,
        Tier::Syllable => syllable,
    };
    match next_plan(tier, outcome) {
        Plan::Finish(found) => found,
        Plan::Query(next) => if tiers_left(next) < tiers_left(tier) {
            run_from(next, exact, prefix, syllable)
        } else {
            Seq::empty()
        },
    }
}

/// Whether stepping from the first lookup on runs lookup `tier`, given what
/// the lookups before it come back with.
pub open spec fn runs(tier: Tier, exact: Option<Seq<Entry>>, prefix: Option<Seq<Entry>>) -> bool {
    match tier {
        Tier::ExactWord => true,
        Tier::PrefixWord => next_plan(Tier::ExactWord, exact) == Plan::Query(Tier::PrefixWord),
        Tier::Syllable => next_plan(Tier::ExactWord, exact) == Plan::Query(Tier::PrefixWord)
            && next_plan(Tier::PrefixWord, prefix) == Plan::Query(Tier::Syllable),
    }
}

/// `Connection::prepare`, `Statement::query_map` and `Row::get` of rusqlite:
/// runs a statement with one text parameter and collects the first column of
/// every row as text. Trusted, and nothing is claimed of what comes back: it
/// is what the database holds.
#[verifier::external_body]
fn select_texts(conn: &Connection, sql: &str, arg: &str) -> (r: Result<
    Vec<String>,
    rusqlite::Error,
>) {
    let mut statement = conn.prepare(sql)?;
    let rows = statement.query_map([arg], |row| row.get::<usize, String>(0))?;
    rows.collect()
}

/// The wording of a failure: what `rusqlite::Error` displays as.
pub uninterp spec fn error_text(error: rusqlite::Error) -> Seq<char>;

/// `Display` of `rusqlite::Error`: the error in words. Trusted: the message
/// is the wording of that error, which the error alone determines.
#[verifier::external_body]
fn error_message(error: &rusqlite::Error) -> (message: String)
    ensures
        message@ == error_text(*error),
{
    format!("{}", error)
}

/// A failure of the store in the library's own terms: its wording.
pub fn store_error(error: &rusqlite::Error) -> (failure: StoreError)
    ensures
        failure.message@ == error_text(*error),
{
    StoreError { message: error_message(error) }
}

/// Marks each text found with the lookup that found it, in order.
pub fn to_candidates(texts: Vec<String>, tier: Tier) -> (found: Vec<Candidate>)
    ensures
        entries(found@) == marked(texts@, tier),
{
    let ghost all = texts@;
    let mut found: Vec<Candidate> = Vec::new();
    for text in it: texts
        invariant
            it.seq() == all,
            found@.len() == it.index(),
            forall|i: int| 0 <= i < found@.len() ==> (#[trigger] found@[i])@ == (Entry {
                text: all[i]@,
                tier,
            }),
    {
        found.push(Candidate { text, tier });
    }
    assert(entries(found@) =~= marked(all, tier));
    found
}

/// The statement that a lookup runs.
pub fn statement_for(tier: Tier) -> (sql: &'static str)
    ensures
        tier is ExactWord ==> sql@ == "SELECT hanzi FROM words WHERE pinyin = ?1"@,
        tier is PrefixWord ==> sql@ == "SELECT hanzi FROM words WHERE pinyin LIKE ?1"@,
        tier is Syllable ==> sql@ == "SELECT hanzi FROM dict WHERE pinyin LIKE ?1"@,
{
    match tier {
        Tier::ExactWord => "SELECT hanzi FROM words WHERE pinyin = ?1",
        Tier::PrefixWord => "SELECT hanzi FROM words WHERE pinyin LIKE ?1",
        Tier::Syllable => "SELECT hanzi FROM dict WHERE pinyin LIKE ?1",
    }
}

/// What a lookup compares spellings with: the fragment itself where the
/// whole spelling has to be equal, else the fragment followed by the sign
/// for "anything".
pub open spec fn pattern(tier: Tier, pinyin: Seq<char>) -> Seq<char> {
    match tier {
        Tier::ExactWord => pinyin,
        _ => pinyin.push('%'),
    }
}

/// The parameter that a lookup hands to its statement.
pub fn argument_for(tier: Tier, pinyin: &str) -> (arg: String)
    ensures
        arg@ == pattern(tier, pinyin@),
{
    match tier {
        Tier::ExactWord => String::from_str(pinyin),
        _ => {
            proof {
                reveal_strlit("%");
                assert("%"@ =~= seq!['%']);
                assert(pinyin@ + seq!['%'] =~= pinyin@.push('%'));
            }
            String::from_str(pinyin).concat("%")
        },
    }
}

/// What a lookup came back with, in the library's own terms: the texts
/// found, each marked with the lookup, or the failure in words.
pub fn as_outcome(outcome: Result<Vec<String>, rusqlite::Error>, tier: Tier) -> (r: Result<
    Vec<Candidate>,
    StoreError,
>)
    ensures
        outcome is Ok ==> r is Ok && entries(r.unwrap()@) == marked(outcome.unwrap()@, tier),
        outcome is Err ==> r is Err && r->Err_0.message@ == error_text(outcome->Err_0),
{
    match outcome {
        Ok(texts) => Ok(to_candidates(texts, tier)),
        Err(error) => Err(store_error(&error)),
    }
}

/// Whether every suggestion of a list was found by the lookup `tier`.
pub open spec fn all_from(found: Seq<Entry>, tier: Tier) -> bool {
    forall|i: int| 0 <= i < found.len() ==> (#[trigger] found[i]).tier == tier
}

/// Runs one lookup: its statement with its parameter for `pinyin`. What is
/// found depends on the store alone; every suggestion carries the lookup
/// that was run.
pub fn query_tier(conn: &Connection, tier: Tier, pinyin: &str) -> (r: Result<
    Vec<Candidate>,
    StoreError,
>)
    ensures
        r is Ok ==> all_from(entries(r.unwrap()@), tier),
{
    let arg = argument_for(tier, pinyin);
    as_outcome(select_texts(conn, statement_for(tier), arg.as_str()), tier)
}

/// Looks up the words spelled `pinyin`: those spelled exactly so if
/// `is_match`, else those whose spelling starts so.
pub fn query_words(conn: &Connection, pinyin: &str, is_match: bool) -> (r: Result<
    Vec<Candidate>,
    StoreError,
>)
    ensures
        r is Ok ==> all_from(
            entries(r.unwrap()@),
            if is_match {
                Tier::ExactWord
            } else {
                Tier::PrefixWord
            },
        ),
{
    if is_match {
        query_tier(conn, Tier::ExactWord, pinyin)
    } else {
        query_tier(conn, Tier::PrefixWord, pinyin)
    }
}

/// Looks up the single characters whose syllable is or starts with
/// `pinyin`.
pub fn query_dict(conn: &Connection, pinyin: &str) -> (r: Result<Vec<Candidate>, StoreError>)
    ensures
        r is Ok ==> all_from(entries(r.unwrap()@), Tier::Syllable),
{
    query_tier(conn, Tier::Syllable, pinyin)
}

/// The first step of the cascade for the text before the cursor.
pub fn begin(fragment: &str) -> (action: Action)
    ensures
        action@ == first_plan(fragment@),
{
    if check_fragment(fragment) {
        Action::Query(Tier::ExactWord)
    } else {
        let nothing: Vec<Candidate> = Vec::new();
        assert(entries(nothing@) =~= Seq::<Entry>::empty());
        Action::Finish(nothing)
    }
}

/// The step of the cascade after the lookup `tier` came back with `outcome`.
pub fn advance(tier: Tier, outcome: Result<Vec<Candidate>, StoreError>) -> (action: Action)
    ensures
        action@ == next_plan(tier, outcome_of(outcome)),
        hit(outcome_of(outcome)) ==> action == Action::Finish(outcome.unwrap()),
{
    match outcome {
        Ok(found) => {
            if found.len() > 0 {
                return Action::Finish(found);
            }
        },
        Err(_) => {},
    }
    match tier {
        Tier::ExactWord => Action::Query(Tier::PrefixWord),
        Tier::PrefixWord => Action::Query(Tier::Syllable),
        Tier::Syllable => {
            let nothing: Vec<Candidate> = Vec::new();
            assert(entries(nothing@) =~= Seq::<Entry>::empty());
            Action::Finish(nothing)
        },
    }
}

/// The answer of the cascade, given what each of the three lookups comes
/// back with.
pub fn select(
    exact: Result<Vec<Candidate>, StoreError>,
    prefix: Result<Vec<Candidate>, StoreError>,
    syllable: Result<Vec<Candidate>, StoreError>,
) -> (found: Vec<Candidate>)
    ensures
        entries(found@) == cascade(outcome_of(exact), outcome_of(prefix), outcome_of(syllable)),
        hit(outcome_of(exact)) ==> found == exact.unwrap(),
        !hit(outcome_of(exact)) && hit(outcome_of(prefix)) ==> found == prefix.unwrap(),
        !hit(outcome_of(exact)) && !hit(outcome_of(prefix)) && hit(outcome_of(syllable)) ==> found
            == syllable.unwrap(),
{
    match advance(Tier::ExactWord, exact) {
        Action::Finish(found) => found,
        Action::Query(_) => match advance(Tier::PrefixWord, prefix) {
            Action::Finish(found) => found,
            Action::Query(_) => match advance(Tier::Syllable, syllable) {
                Action::Finish(found) => found,
                Action::Query(_) => Vec::new(),
            },
        },
    }
}

/// Resolves the text before the cursor against the store: steps through the
/// cascade, running each lookup that a step asks for. Without a fragment no
/// lookup is run. What is found depends on the store; it always comes from
/// one lookup.
pub fn resolve(conn: &Connection, fragment: &str) -> (found: Vec<Candidate>)
    ensures
        !is_fragment(fragment@) ==> found@.len() == 0,
        exists|tier: Tier| all_from(entries(found@), tier),
{
    let mut action = begin(fragment);
    let mut left: u8 = 3;
    proof {
        if action is Finish {
            assert(all_from(entries(action->Finish_0@), Tier::ExactWord));
        }
    }
    loop
        invariant
            left <= 3,
            !is_fragment(fragment@) ==> action@ == Plan::Finish(Seq::<Entry>::empty()),
            action matches Action::Query(tier) ==> tiers_left(tier) == left,
            action matches Action::Finish(found) ==> exists|tier: Tier|
                all_from(entries(found@), tier),
        decreases left,
    {
        match action {
            Action::Finish(found) => {
                assert(entries(found@).len() == found@.len());
                return found;
            },
            Action::Query(tier) => {
                let outcome = query_tier(conn, tier, fragment);
                action = advance(tier, outcome);
                proof {
                    if action is Finish {
                        assert(all_from(entries(action->Finish_0@), tier));
                    }
                }
                left = left - 1;
            },
        }
    }
}

/// The first lookup that finds anything decides: stepping through the
/// cascade gives the answer that `cascade` states.
pub proof fn lemma_run_is_cascade(
    exact: Option<Seq<Entry>>,
    prefix: Option<Seq<Entry>>,
    syllable: Option<Seq<Entry>>,
)
    ensures
        run_from(Tier::ExactWord, exact, prefix, syllable) == cascade(exact, prefix, syllable),
{
    reveal_with_fuel(run_from, 4);
}

/// If the exact-word lookup finds anything, the answer is exactly what it
/// found, and neither of the other lookups is run.
pub proof fn lemma_exact_word_decides(
    exact: Option<Seq<Entry>>,
    prefix: Option<Seq<Entry>>,
    syllable: Option<Seq<Entry>>,
)
    requires
        hit(exact),
    ensures
        run_from(Tier::ExactWord, exact, prefix, syllable) == exact.unwrap(),
        cascade(exact, prefix, syllable) == exact.unwrap(),
        !runs(Tier::PrefixWord, exact, prefix),
        !runs(Tier::Syllable, exact, prefix),
{
    reveal_with_fuel(run_from, 4);
}

/// If the exact-word lookup finds nothing and the prefix-word lookup finds
/// anything, the answer is exactly what the prefix-word lookup found, and the
/// syllable lookup is not run.
pub proof fn lemma_prefix_word_decides(
    exact: Option<Seq<Entry>>,
    prefix: Option<Seq<Entry>>,
    syllable: Option<Seq<Entry>>,
)
    requires
        !hit(exact),
        hit(prefix),
    ensures
        run_from(Tier::ExactWord, exact, prefix, syllable) == prefix.unwrap(),
        cascade(exact, prefix, syllable) == prefix.unwrap(),
        runs(Tier::PrefixWord, exact, prefix),
        !runs(Tier::Syllable, exact, prefix),
{
    reveal_with_fuel(run_from, 4);
}

/// If neither word lookup finds anything, the syllable lookup is run and the
/// answer is what it found, which may be nothing; it is nothing if the
/// lookup failed.
pub proof fn lemma_syllable_decides(
    exact: Option<Seq<Entry>>,
    prefix: Option<Seq<Entry>>,
    syllable: Option<Seq<Entry>>,
)
    requires
        !hit(exact),
        !hit(prefix),
    ensures
        runs(Tier::Syllable, exact, prefix),
        syllable is Some ==> run_from(Tier::ExactWord, exact, prefix, syllable)
            == syllable.unwrap(),
        syllable is Some ==> cascade(exact, prefix, syllable) == syllable.unwrap(),
        syllable is None ==> run_from(Tier::ExactWord, exact, prefix, syllable).len() == 0,
{
    reveal_with_fuel(run_from, 4);
    if syllable is Some && !hit(syllable) {
        assert(syllable.unwrap() =~= Seq::<Entry>::empty());
    }
}

} // verus!
