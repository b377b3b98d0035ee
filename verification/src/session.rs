//! The state of one connection: where the dictionary store lies and the
//! open handle to it.
//!
//! A session starts without a store. `init` reads the location from the
//! configuration handed over at start-up and opens the store; until that has
//! succeeded, every completion request is answered with nothing.

use crate::resolver::{error_text, store_error, StoreError};
use rusqlite::Connection;
use serde_json::Value;
use vstd::prelude::*;
use vstd::string::StringExecFns;

verus! {

/// `serde_json::Value`: a JSON value. Opaque here.
#[verifier::external_type_specification]
#[verifier::external_body]
pub struct ExValue(Value);

/// The configuration field that holds the store location.
pub const DB_PATH_KEY: &'static str = "db-path";

/// What the configuration object says of one of its fields.
#[derive(Debug)]
pub enum Field {
    /// The object has no such field, or the configuration is no object.
    Absent,
    /// The field holds something that is not a string.
    NotText,
    /// The field holds this string.
    Text(String),
}

/// The configuration of a session: where the dictionary store lies.
#[derive(Debug)]
pub struct Setting {
    pub db_path: String,
}

/// Why a session could not be initialized.
#[derive(Debug)]
pub enum InitError {
    /// No configuration was handed over.
    MissingOptions,
    /// The store location is not a string.
    NotString,
    /// The store location is missing or empty.
    MissingOrEmpty,
    /// The store could not be opened, with the cause as the store gave it.
    OpenFailed(String),
}

/// What a configuration says of the store location, as a specification sees
/// it.
pub open spec fn checked(options: Option<Field>) -> Result<Seq<char>, InitError> {
    match options {
        None => Err(InitError::MissingOptions),
        Some(Field::NotText) => Err(InitError::NotString),
        Some(Field::Absent) => Err(InitError::MissingOrEmpty),
        Some(Field::Text(path)) => if path@.len() == 0 {
            Err(InitError::MissingOrEmpty)
        } else {
            Ok(path@)
        },
    }
}

/// What a configuration says of its field `key`.
pub uninterp spec fn field_of(options: Value, key: Seq<char>) -> Field;

/// `Value::get` of serde_json, with a string key: the field of that name.
/// Trusted: what comes back is what the configuration says of the field,
/// which the configuration and the key alone determine; the three cases are
/// told apart as the value's own variants tell them.
#[verifier::external_body]
fn read_field(options: &Value, key: &str) -> (field: Field)
    ensures
        field == field_of(*options, key@),
{
    match options.get(key) {
        None => Field::Absent,
        Some(Value::String(text)) => Field::Text(text.clone()),
        Some(_) => Field::NotText,
    }
}

/// What the configuration handed over at start-up says of the store
/// location; nothing if none was handed over.
pub open spec fn location_in(options: Option<&Value>) -> Option<Field> {
    match options {
        Some(value) => Some(field_of(*value, DB_PATH_KEY@)),
        None => None,
    }
}

/// Whether `cause` is the wording of a failure of the store.
pub open spec fn is_store_wording(cause: Seq<char>) -> bool {
    exists|error: rusqlite::Error| cause == #[trigger] error_text(error)
}

/// `Connection::open` of rusqlite: opens the database file at `path`.
/// Trusted, and nothing is claimed of the outcome: it depends on the file.
#[verifier::external_body]
fn open_store(path: &str) -> (r: Result<Connection, rusqlite::Error>) {
    Connection::open(path)
}

/// The outcome of opening the store in the library's own terms: the handle,
/// or the failure in the store's wording.
pub fn opened_as(outcome: Result<Connection, rusqlite::Error>) -> (r: Result<Connection, StoreError>)
    ensures
        outcome is Ok ==> r == Ok::<Connection, StoreError>(outcome->Ok_0),
        outcome is Err ==> r is Err && r->Err_0.message@ == error_text(outcome->Err_0),
{
    match outcome {
        Ok(conn) => Ok(conn),
        Err(error) => Err(store_error(&error)),
    }
}

impl InitError {
    /// The message that tells the user of the error.
    pub fn message(&self) -> (text: String)
        ensures
            *self is MissingOptions ==> text@
                == "ds-pinyin-lsp initialization_options is missing, it must include db-path setting!"@,
            *self is NotString ==> text@ == "ds-pinyin-lsp db-path must be string!"@,
            *self is MissingOrEmpty ==> text@ == "ds-pinyin-lsp db-path is missing or empty!"@,
            *self matches InitError::OpenFailed(cause) ==> text@ == "Open database error: "@
                + cause@,
    {
        match self {
            InitError::MissingOptions => String::from_str(
                "ds-pinyin-lsp initialization_options is missing, it must include db-path setting!",
            ),
            InitError::NotString => String::from_str("ds-pinyin-lsp db-path must be string!"),
            InitError::MissingOrEmpty => String::from_str(
                "ds-pinyin-lsp db-path is missing or empty!",
            ),
            InitError::OpenFailed(cause) => String::from_str("Open database error: ").concat(
                cause.as_str(),
            ),
        }
    }
}

/// The message that is logged when the store has been opened.
pub fn ready_message() -> (text: String)
    ensures
        text@ == "ds-pinyin-lsp db connection initialized!"@,
{
    String::from_str("ds-pinyin-lsp db connection initialized!")
}

/// The state of one connection.
pub struct Session {
    setting: Option<Setting>,
    conn: Option<Connection>,
}

impl Session {
    /// The store location that was accepted last, if any was.
    pub closed spec fn db_path(&self) -> Option<Seq<char>> {
        match self.setting {
            Some(setting) => Some(setting.db_path@),
            None => None,
        }
    }

    /// The open store handle, if there is one.
    pub closed spec fn handle(&self) -> Option<Connection> {
        self.conn
    }

    /// A session without configuration and without a store.
    pub fn new() -> (session: Session)
        ensures
            session.db_path() is None,
            session.handle() is None,
    {
        Session { setting: None, conn: None }
    }

    /// The open store handle, if there is one.
    pub fn connection(&self) -> (conn: Option<&Connection>)
        ensures
            conn is Some <==> self.handle() is Some,
            conn is Some ==> *conn.unwrap() == self.handle().unwrap(),
    {
        self.conn.as_ref()
    }

    /// The store location that was accepted last, if any was.
    pub fn setting(&self) -> (setting: Option<&Setting>)
        ensures
            setting is Some <==> self.db_path() is Some,
            setting is Some ==> setting.unwrap().db_path@ == self.db_path().unwrap(),
    {
        self.setting.as_ref()
    }

    /// Checks what a configuration says of the store location: a non-empty
    /// string is accepted, anything else is an error.
    pub fn check(options: Option<Field>) -> (r: Result<String, InitError>)
        ensures
            checked(options) is Ok ==> r is Ok && r.unwrap()@ == checked(options).unwrap(),
            checked(options) is Err ==> r is Err && r.unwrap_err() == checked(options)->Err_0,
    {
        match options {
            None => Err(InitError::MissingOptions),
            Some(Field::NotText) => Err(InitError::NotString),
            Some(Field::Absent) => Err(InitError::MissingOrEmpty),
            Some(Field::Text(path)) => {
                if path.as_str().is_empty() {
                    Err(InitError::MissingOrEmpty)
                } else {
                    Ok(path)
                }
            },
        }
    }

    /// Takes over an accepted store location and the outcome of opening the
    /// store there. The location is kept either way; the handle is replaced
    /// only by a store that was opened.
    pub fn install(&mut self, path: String, opened: Result<Connection, StoreError>) -> (r: Result<
        (),
        InitError,
    >)
        ensures
            final(self).db_path() == Some(path@),
            opened is Ok ==> r is Ok && final(self).handle() == Some(opened.unwrap()),
            opened is Err ==> r == Err::<(), InitError>(
                InitError::OpenFailed(opened.unwrap_err().message),
            ) && final(self).handle() == old(self).handle(),
    {
        self.setting = Some(Setting { db_path: path });
        match opened {
            Ok(conn) => {
                self.conn = Some(conn);
                Ok(())
            },
            Err(error) => Err(InitError::OpenFailed(error.message)),
        }
    }

    /// Configures the session from what the configuration says of the store
    /// location, and opens the store. A location that is not accepted
    /// leaves the session as it was. Whether the store opens depends on the
    /// file at the location; if it does not, the cause reported is the
    /// store's own wording.
    pub fn configure(&mut self, options: Option<Field>) -> (r: Result<(), InitError>)
        ensures
            checked(options) is Err ==> r is Err && r.unwrap_err() == checked(options)->Err_0
                && *final(self) == *old(self),
            checked(options) is Ok ==> final(self).db_path() == Some(checked(options).unwrap()),
            checked(options) is Ok ==> (r is Ok && final(self).handle() is Some) || (r is Err
                && r.unwrap_err() is OpenFailed && is_store_wording(
                r.unwrap_err()->OpenFailed_0@,
            ) && final(self).handle() == old(self).handle()),
    {
        match Session::check(options) {
            Err(error) => Err(error),
            Ok(path) => {
                let opened = opened_as(open_store(path.as_str()));
                self.install(path, opened)
            },
        }
    }

    /// Initializes the session from the configuration handed over at
    /// start-up, if any was: reads the store location from it and
    /// configures the session with that. May be called again: a later
    /// configuration that is accepted replaces the earlier one.
    pub fn init(&mut self, options: Option<&Value>) -> (r: Result<(), InitError>)
        ensures
            checked(location_in(options)) is Err ==> r is Err && r.unwrap_err() == checked(
                location_in(options),
            )->Err_0 && *final(self) == *old(self),
            checked(location_in(options)) is Ok ==> final(self).db_path() == Some(
                checked(location_in(options)).unwrap(),
            ),
            checked(location_in(options)) is Ok ==> (r is Ok && final(self).handle() is Some) || (
            r is Err && r.unwrap_err() is OpenFailed && is_store_wording(
                r.unwrap_err()->OpenFailed_0@,
            ) && final(self).handle() == old(self).handle()),
    {
        let field = match options {
            Some(value) => Some(read_field(value, DB_PATH_KEY)),
            None => None,
        };
        self.configure(field)
    }
}

} // verus!
