use ds_pinyin_lsp::pinyin::{check_fragment, get_pinyin, get_pre_line};
use ds_pinyin_lsp::store::DocumentStore;
use ds_pinyin_lsp::types::Position;

#[test]
fn get_pinyin_takes_the_letters_at_the_end() {
    assert_eq!(get_pinyin("ni"), Some("ni".to_string()));
    assert_eq!(get_pinyin("你好ni"), Some("ni".to_string()));
    assert_eq!(get_pinyin("let x = nihao"), Some("nihao".to_string()));
    assert_eq!(get_pinyin("a b"), Some("b".to_string()));
    assert_eq!(get_pinyin("Ni"), Some("i".to_string()));
    assert_eq!(get_pinyin("x1y2zz"), Some("zz".to_string()));
}

#[test]
fn get_pinyin_is_empty_behind_a_non_letter() {
    assert_eq!(get_pinyin(""), None);
    assert_eq!(get_pinyin("hello, "), None);
    assert_eq!(get_pinyin("ni3"), None);
    assert_eq!(get_pinyin("NI"), None);
    assert_eq!(get_pinyin("ni\n"), None);
    assert_eq!(get_pinyin("你"), None);
    assert_eq!(get_pinyin("nǐ"), None);
    assert_eq!(get_pinyin("é"), None);
}

#[test]
fn get_pinyin_stops_at_accented_letters() {
    assert_eq!(get_pinyin("lǜe"), Some("e".to_string()));
    assert_eq!(get_pinyin("{z"), Some("z".to_string()));
    assert_eq!(get_pinyin("`a"), Some("a".to_string()));
}

#[test]
fn check_fragment_accepts_lowercase_letters_only() {
    assert!(check_fragment("ni"));
    assert!(check_fragment("a"));
    assert!(check_fragment("zhuang"));
    assert!(!check_fragment(""));
    assert!(!check_fragment("Ni"));
    assert!(!check_fragment("ni%"));
    assert!(!check_fragment("n_i"));
    assert!(!check_fragment("ni hao"));
    assert!(!check_fragment("你"));
}

#[test]
fn get_pre_line_reads_the_cursor_line_only() {
    let mut store = DocumentStore::new();
    store.open("u".to_string(), "first\n你好ni\nlast".to_string());
    let document = store.get("u");
    assert_eq!(get_pre_line(&document, &Position::new(1, 4)), Some("你好ni"));
    assert_eq!(get_pre_line(&document, &Position::new(1, 0)), Some(""));
    assert_eq!(get_pre_line(&document, &Position::new(0, 3)), Some("fir"));
    assert_eq!(get_pre_line(&document, &Position::new(2, 4)), Some("last"));
}

#[test]
fn get_pre_line_is_none_without_document_or_line() {
    let mut store = DocumentStore::new();
    store.open("u".to_string(), "ni".to_string());
    let missing = store.get("v");
    assert_eq!(get_pre_line(&missing, &Position::new(0, 0)), None);
    let document = store.get("u");
    assert_eq!(get_pre_line(&document, &Position::new(0, 3)), None);
    assert_eq!(get_pre_line(&document, &Position::new(2, 0)), None);
    assert_eq!(get_pre_line(&document, &Position::new(1, 0)), Some(""));
}
