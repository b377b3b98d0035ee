use ds_pinyin_lsp::resolver::{
    advance, argument_for, as_outcome, begin, query_dict, query_tier, query_words, resolve, select,
    statement_for, store_error, to_candidates, Action, Candidate, StoreError, Tier,
};
use rusqlite::Connection;

fn dictionary() -> Connection {
    let conn = Connection::open_in_memory().unwrap();
    conn.execute_batch(
        "CREATE TABLE words (pinyin TEXT, hanzi TEXT);
         CREATE TABLE dict (pinyin TEXT, hanzi TEXT);
         INSERT INTO words VALUES ('nihao', '你好');
         INSERT INTO words VALUES ('nihao', '拟好');
         INSERT INTO words VALUES ('nihaoma', '你好吗');
         INSERT INTO words VALUES ('nimen', '你们');
         INSERT INTO words VALUES ('women', '我们');
         INSERT INTO dict VALUES ('ni', '你');
         INSERT INTO dict VALUES ('ni', '尼');
         INSERT INTO dict VALUES ('nin', '您');
         INSERT INTO dict VALUES ('hao', '好');
         INSERT INTO dict VALUES ('xi', '西');",
    )
    .unwrap();
    conn
}

fn texts(found: &[Candidate]) -> Vec<&str> {
    found.iter().map(|c| c.text.as_str()).collect()
}

fn from(tier: Tier, list: &[&str]) -> Vec<Candidate> {
    list.iter().map(|t| Candidate { text: t.to_string(), tier }).collect()
}

fn failed() -> Result<Vec<Candidate>, StoreError> {
    Err(StoreError { message: "no such table".to_string() })
}

#[test]
fn to_candidates_keeps_order_and_marks_the_tier() {
    let found = to_candidates(vec!["你".to_string(), "尼".to_string()], Tier::Syllable);
    assert_eq!(texts(&found), vec!["你", "尼"]);
    assert!(found.iter().all(|c| c.tier == Tier::Syllable));
    assert!(to_candidates(Vec::new(), Tier::ExactWord).is_empty());
}

#[test]
fn query_words_exact_finds_whole_spellings() {
    let conn = dictionary();
    let found = query_words(&conn, "nihao", true).unwrap();
    assert_eq!(texts(&found), vec!["你好", "拟好"]);
    assert!(found.iter().all(|c| c.tier == Tier::ExactWord));
    assert!(query_words(&conn, "niha", true).unwrap().is_empty());
    assert!(query_words(&conn, "ni", true).unwrap().is_empty());
}

#[test]
fn query_words_prefix_finds_spellings_that_start_so() {
    let conn = dictionary();
    let found = query_words(&conn, "ni", false).unwrap();
    assert_eq!(texts(&found), vec!["你好", "拟好", "你好吗", "你们"]);
    assert!(found.iter().all(|c| c.tier == Tier::PrefixWord));
    let found = query_words(&conn, "nihaom", false).unwrap();
    assert_eq!(texts(&found), vec!["你好吗"]);
    assert!(query_words(&conn, "x", false).unwrap().is_empty());
}

#[test]
fn query_dict_finds_equal_and_longer_syllables() {
    let conn = dictionary();
    let found = query_dict(&conn, "ni").unwrap();
    assert_eq!(texts(&found), vec!["你", "尼", "您"]);
    assert!(found.iter().all(|c| c.tier == Tier::Syllable));
    assert_eq!(texts(&query_dict(&conn, "h").unwrap()), vec!["好"]);
    assert!(query_dict(&conn, "zz").unwrap().is_empty());
}

#[test]
fn query_tier_runs_the_lookup_of_that_tier() {
    let conn = dictionary();
    assert_eq!(texts(&query_tier(&conn, Tier::ExactWord, "nimen").unwrap()), vec!["你们"]);
    assert_eq!(texts(&query_tier(&conn, Tier::PrefixWord, "wo").unwrap()), vec!["我们"]);
    assert_eq!(texts(&query_tier(&conn, Tier::Syllable, "x").unwrap()), vec!["西"]);
}

#[test]
fn queries_fail_without_tables() {
    let conn = Connection::open_in_memory().unwrap();
    assert!(query_words(&conn, "ni", true).is_err());
    assert!(query_words(&conn, "ni", false).is_err());
    let error = query_dict(&conn, "ni").unwrap_err();
    assert!(error.message.contains("dict"));
}

#[test]
fn begin_asks_for_the_exact_lookup_only_for_a_fragment() {
    assert!(matches!(begin("ni"), Action::Query(Tier::ExactWord)));
    assert!(matches!(begin(""), Action::Finish(found) if found.is_empty()));
    assert!(matches!(begin("ni%"), Action::Finish(found) if found.is_empty()));
    assert!(matches!(begin("Ni"), Action::Finish(found) if found.is_empty()));
}

#[test]
fn advance_stops_at_the_first_lookup_that_finds_anything() {
    for tier in [Tier::ExactWord, Tier::PrefixWord, Tier::Syllable] {
        match advance(tier, Ok(from(tier, &["一", "二"]))) {
            Action::Finish(found) => {
                assert_eq!(texts(&found), vec!["一", "二"]);
                assert!(found.iter().all(|c| c.tier == tier));
            }
            Action::Query(_) => panic!("a lookup that found something must end the cascade"),
        }
    }
}

#[test]
fn advance_goes_on_after_nothing_or_a_failure() {
    assert!(matches!(advance(Tier::ExactWord, Ok(Vec::new())), Action::Query(Tier::PrefixWord)));
    assert!(matches!(advance(Tier::ExactWord, failed()), Action::Query(Tier::PrefixWord)));
    assert!(matches!(advance(Tier::PrefixWord, Ok(Vec::new())), Action::Query(Tier::Syllable)));
    assert!(matches!(advance(Tier::PrefixWord, failed()), Action::Query(Tier::Syllable)));
    assert!(matches!(advance(Tier::Syllable, Ok(Vec::new())), Action::Finish(f) if f.is_empty()));
    assert!(matches!(advance(Tier::Syllable, failed()), Action::Finish(f) if f.is_empty()));
}

#[test]
fn select_prefers_exact_words() {
    let found = select(
        Ok(from(Tier::ExactWord, &["你好"])),
        Ok(from(Tier::PrefixWord, &["你好吗"])),
        Ok(from(Tier::Syllable, &["你"])),
    );
    assert_eq!(texts(&found), vec!["你好"]);
    assert_eq!(found[0].tier, Tier::ExactWord);
}

#[test]
fn select_falls_back_to_prefix_words() {
    let found = select(
        Ok(Vec::new()),
        Ok(from(Tier::PrefixWord, &["你好吗", "你们"])),
        Ok(from(Tier::Syllable, &["你"])),
    );
    assert_eq!(texts(&found), vec!["你好吗", "你们"]);
    let found = select(failed(), Ok(from(Tier::PrefixWord, &["你们"])), failed());
    assert_eq!(texts(&found), vec!["你们"]);
}

#[test]
fn select_falls_back_to_syllables() {
    let found = select(Ok(Vec::new()), Ok(Vec::new()), Ok(from(Tier::Syllable, &["你", "尼"])));
    assert_eq!(texts(&found), vec!["你", "尼"]);
    let found = select(failed(), failed(), Ok(from(Tier::Syllable, &["你"])));
    assert_eq!(texts(&found), vec!["你"]);
    assert!(select(Ok(Vec::new()), Ok(Vec::new()), Ok(Vec::new())).is_empty());
    assert!(select(failed(), failed(), failed()).is_empty());
}

#[test]
fn resolve_answers_from_the_first_tier_that_matches() {
    let conn = dictionary();
    let found = resolve(&conn, "nihao");
    assert_eq!(texts(&found), vec!["你好", "拟好"]);
    assert!(found.iter().all(|c| c.tier == Tier::ExactWord));
    let found = resolve(&conn, "nih");
    assert_eq!(texts(&found), vec!["你好", "拟好", "你好吗"]);
    assert!(found.iter().all(|c| c.tier == Tier::PrefixWord));
    let found = resolve(&conn, "xi");
    assert_eq!(texts(&found), vec!["西"]);
    assert!(found.iter().all(|c| c.tier == Tier::Syllable));
    assert!(resolve(&conn, "zzz").is_empty());
}

#[test]
fn resolve_goes_past_a_tier_that_fails() {
    let conn = Connection::open_in_memory().unwrap();
    conn.execute_batch(
        "CREATE TABLE dict (pinyin TEXT, hanzi TEXT);
         INSERT INTO dict VALUES ('ni', '你');",
    )
    .unwrap();
    // there is no table of words: both word lookups fail
    let found = resolve(&conn, "ni");
    assert_eq!(texts(&found), vec!["你"]);
    assert_eq!(found[0].tier, Tier::Syllable);
    let empty = Connection::open_in_memory().unwrap();
    assert!(resolve(&empty, "ni").is_empty());
}

#[test]
fn resolve_runs_no_lookup_without_a_fragment() {
    let conn = dictionary();
    assert!(resolve(&conn, "").is_empty());
    // '%' would match every spelling if it reached the store
    assert!(resolve(&conn, "%").is_empty());
    assert!(resolve(&conn, "n_").is_empty());
    assert!(resolve(&conn, "NI").is_empty());
}

#[test]
fn statement_for_names_table_and_comparison() {
    assert_eq!(statement_for(Tier::ExactWord), "SELECT hanzi FROM words WHERE pinyin = ?1");
    assert_eq!(statement_for(Tier::PrefixWord), "SELECT hanzi FROM words WHERE pinyin LIKE ?1");
    assert_eq!(statement_for(Tier::Syllable), "SELECT hanzi FROM dict WHERE pinyin LIKE ?1");
}

#[test]
fn argument_for_appends_the_wildcard_for_prefix_lookups() {
    assert_eq!(argument_for(Tier::ExactWord, "nihao"), "nihao");
    assert_eq!(argument_for(Tier::PrefixWord, "nihao"), "nihao%");
    assert_eq!(argument_for(Tier::Syllable, "n"), "n%");
}

#[test]
fn as_outcome_marks_texts_and_words_failures() {
    let found = as_outcome(Ok(vec!["你".to_string(), "尼".to_string()]), Tier::Syllable).unwrap();
    assert_eq!(texts(&found), vec!["你", "尼"]);
    assert!(found.iter().all(|c| c.tier == Tier::Syllable));
    let error = as_outcome(Err(rusqlite::Error::InvalidQuery), Tier::ExactWord).unwrap_err();
    assert_eq!(error.message, rusqlite::Error::InvalidQuery.to_string());
    assert!(!error.message.is_empty());
}

#[test]
fn store_error_words_the_failure() {
    let failure = store_error(&rusqlite::Error::QueryReturnedNoRows);
    assert_eq!(failure.message, "Query returned no rows");
    let failure = store_error(&rusqlite::Error::InvalidParameterName(":x".to_string()));
    assert_eq!(failure.message, "Invalid parameter name: :x");
}
