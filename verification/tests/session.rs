use ds_pinyin_lsp::resolver::StoreError;
use ds_pinyin_lsp::session::{
    opened_as, ready_message, Field, InitError, Session, DB_PATH_KEY,
};
use rusqlite::Connection;
use serde_json::{Number, Value};

fn options(value: Value) -> Value {
    let mut object = serde_json::Map::new();
    object.insert("db-path".to_string(), value);
    Value::Object(object)
}

#[test]
fn new_session_has_no_store() {
    let session = Session::new();
    assert!(session.connection().is_none());
    assert!(session.setting().is_none());
}

#[test]
fn the_location_field_is_db_path() {
    assert_eq!(DB_PATH_KEY, "db-path");
}

#[test]
fn check_accepts_a_non_empty_string_only() {
    assert_eq!(
        Session::check(Some(Field::Text("/tmp/dict.db3".to_string()))).unwrap(),
        "/tmp/dict.db3"
    );
    assert!(matches!(Session::check(None), Err(InitError::MissingOptions)));
    assert!(matches!(Session::check(Some(Field::Absent)), Err(InitError::MissingOrEmpty)));
    assert!(matches!(Session::check(Some(Field::NotText)), Err(InitError::NotString)));
    assert!(matches!(
        Session::check(Some(Field::Text(String::new()))),
        Err(InitError::MissingOrEmpty)
    ));
}

#[test]
fn messages_name_the_error() {
    assert_eq!(
        InitError::MissingOptions.message(),
        "ds-pinyin-lsp initialization_options is missing, it must include db-path setting!"
    );
    assert_eq!(InitError::NotString.message(), "ds-pinyin-lsp db-path must be string!");
    assert_eq!(InitError::MissingOrEmpty.message(), "ds-pinyin-lsp db-path is missing or empty!");
    assert_eq!(
        InitError::OpenFailed("unable to open database file".to_string()).message(),
        "Open database error: unable to open database file"
    );
    assert_eq!(ready_message(), "ds-pinyin-lsp db connection initialized!");
}

#[test]
fn install_keeps_the_location_and_takes_an_opened_store() {
    let mut session = Session::new();
    let opened = Connection::open_in_memory().unwrap();
    assert!(session.install("a.db".to_string(), Ok(opened)).is_ok());
    assert_eq!(session.setting().unwrap().db_path, "a.db");
    assert!(session.connection().is_some());
}

#[test]
fn install_reports_a_failed_open_and_leaves_the_handle() {
    let mut session = Session::new();
    let failed = Err(StoreError { message: "disk on fire".to_string() });
    match session.install("b.db".to_string(), failed) {
        Err(InitError::OpenFailed(cause)) => assert_eq!(cause, "disk on fire"),
        _ => panic!("a failed open must be reported as such"),
    }
    assert_eq!(session.setting().unwrap().db_path, "b.db");
    assert!(session.connection().is_none());
    // a handle that was there stays
    session.install("c.db".to_string(), Ok(Connection::open_in_memory().unwrap())).unwrap();
    let again = Err(StoreError { message: "gone".to_string() });
    assert!(session.install("d.db".to_string(), again).is_err());
    assert_eq!(session.setting().unwrap().db_path, "d.db");
    assert!(session.connection().is_some());
}

#[test]
fn configure_rejects_a_bad_location_without_a_change() {
    let mut session = Session::new();
    assert!(matches!(session.configure(None), Err(InitError::MissingOptions)));
    assert!(matches!(session.configure(Some(Field::Absent)), Err(InitError::MissingOrEmpty)));
    assert!(matches!(session.configure(Some(Field::NotText)), Err(InitError::NotString)));
    assert!(session.connection().is_none());
    assert!(session.setting().is_none());
}

#[test]
fn configure_opens_the_store() {
    let mut session = Session::new();
    assert!(session.configure(Some(Field::Text(":memory:".to_string()))).is_ok());
    assert!(session.connection().is_some());
    assert_eq!(session.setting().unwrap().db_path, ":memory:");
}

#[test]
fn configure_reports_why_the_store_did_not_open() {
    let mut session = Session::new();
    let outcome = session.configure(Some(Field::Text("/no/such/dir/anywhere/dict.db3".to_string())));
    match outcome {
        Err(InitError::OpenFailed(cause)) => assert!(!cause.is_empty()),
        _ => panic!("a store in a missing directory cannot open"),
    }
    assert!(session.connection().is_none());
    assert_eq!(session.setting().unwrap().db_path, "/no/such/dir/anywhere/dict.db3");
}

#[test]
fn init_without_options_is_an_error() {
    let mut session = Session::new();
    assert!(matches!(session.init(None), Err(InitError::MissingOptions)));
    assert!(session.connection().is_none());
}

#[test]
fn init_reads_db_path_from_the_options() {
    let mut session = Session::new();
    let value = options(Value::String(":memory:".to_string()));
    assert!(session.init(Some(&value)).is_ok());
    assert!(session.connection().is_some());
    assert_eq!(session.setting().unwrap().db_path, ":memory:");
}

#[test]
fn init_rejects_options_without_a_usable_db_path() {
    let mut session = Session::new();
    let empty_object = Value::Object(serde_json::Map::new());
    assert!(matches!(session.init(Some(&empty_object)), Err(InitError::MissingOrEmpty)));
    let other_field = {
        let mut object = serde_json::Map::new();
        object.insert("db_path".to_string(), Value::String("x.db".to_string()));
        Value::Object(object)
    };
    assert!(matches!(session.init(Some(&other_field)), Err(InitError::MissingOrEmpty)));
    let number = options(Value::Number(Number::from(7)));
    assert!(matches!(session.init(Some(&number)), Err(InitError::NotString)));
    let null = options(Value::Null);
    assert!(matches!(session.init(Some(&null)), Err(InitError::NotString)));
    let list = options(Value::Array(vec![Value::String("x.db".to_string())]));
    assert!(matches!(session.init(Some(&list)), Err(InitError::NotString)));
    let empty = options(Value::String(String::new()));
    assert!(matches!(session.init(Some(&empty)), Err(InitError::MissingOrEmpty)));
    let not_an_object = Value::String("x.db".to_string());
    assert!(matches!(session.init(Some(&not_an_object)), Err(InitError::MissingOrEmpty)));
    assert!(session.connection().is_none());
    assert!(session.setting().is_none());
}

#[test]
fn init_again_replaces_the_configuration() {
    let mut session = Session::new();
    let first = options(Value::String(":memory:".to_string()));
    assert!(session.init(Some(&first)).is_ok());
    let second = options(Value::String("file::memory:".to_string()));
    assert!(session.init(Some(&second)).is_ok());
    assert_eq!(session.setting().unwrap().db_path, "file::memory:");
    // a later configuration that is refused changes nothing
    assert!(session.init(None).is_err());
    assert!(session.connection().is_some());
    assert_eq!(session.setting().unwrap().db_path, "file::memory:");
}

#[test]
fn opened_as_keeps_the_handle_or_words_the_failure() {
    assert!(opened_as(Connection::open_in_memory()).is_ok());
    let failure = opened_as(Err(rusqlite::Error::InvalidQuery)).unwrap_err();
    assert_eq!(failure.message, rusqlite::Error::InvalidQuery.to_string());
    let failure = opened_as(Err(rusqlite::Error::InvalidColumnName("hanzi".to_string())));
    assert_eq!(failure.unwrap_err().message, "Invalid column name: hanzi");
}

#[test]
fn open_failure_is_reported_in_the_words_of_the_store() {
    let path = "/no/such/dir/anywhere/dict.db3";
    let expected = Connection::open(path).unwrap_err().to_string();
    let mut session = Session::new();
    match session.configure(Some(Field::Text(path.to_string()))) {
        Err(InitError::OpenFailed(cause)) => assert_eq!(cause, expected),
        _ => panic!("a store in a missing directory cannot open"),
    }
    let mut session = Session::new();
    let mut object = serde_json::Map::new();
    object.insert("db-path".to_string(), Value::String(path.to_string()));
    match session.init(Some(&Value::Object(object))) {
        Err(error) => assert_eq!(error.message(), format!("Open database error: {}", expected)),
        Ok(()) => panic!("a store in a missing directory cannot open"),
    }
    assert_eq!(session.setting().unwrap().db_path, path);
    assert!(session.connection().is_none());
}
