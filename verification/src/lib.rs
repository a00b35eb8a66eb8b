//! A namespace-scoped key/value note store: the entry model, the in-memory
//! index with fuzzy search and recent-access history, the row codec and
//! rules of the durable store, and the framing and routing of the HTTP
//! gateway. All of it is stated over mathematical models and proved.

pub mod api;
pub mod commands;
pub mod db;
pub mod history;
pub mod http;
pub mod interactive;
pub mod listing;
pub mod namespace;
pub mod ranking;
pub mod settings;
pub mod store;
pub mod tags;
pub mod text;
pub mod time;

use vstd::prelude::*;

verus! {

/// File that holds the data where no other is named.
pub const DEFAULT_DATA_FILE: &'static str = "data.db";

/// File that holds the recent-access log where no other is named.
pub const DEFAULT_RECENT_LOG: &'static str = "logs/recent.log";

/// What the library's operations return.
pub type KvResult<T> = Result<T, KvError>;

/// What can go wrong. Failures of the file system, the database and the
/// configuration parser arise outside this library and are carried as text.
#[derive(Debug)]
pub enum KvError {
    Io(String),
    DataFormat(String),
    Db(String),
    /// The database file carries a schema version that this library does not
    /// know.
    Schema(i64),
    ConfigFormat(String),
    Time(String),
    NotFound(String),
    InvalidInput(String),
    /// A request body of this many bytes is over the limit.
    PayloadTooLarge(usize),
}

/// The models of the errors: the same cases over `Seq<char>`.
pub enum KvErrorView {
    Io(Seq<char>),
    DataFormat(Seq<char>),
    Db(Seq<char>),
    Schema(int),
    ConfigFormat(Seq<char>),
    Time(Seq<char>),
    NotFound(Seq<char>),
    InvalidInput(Seq<char>),
    PayloadTooLarge(nat),
}

impl View for KvError {
    type V = KvErrorView;

    open spec fn view(&self) -> KvErrorView {
        match *self {
            KvError::Io(m) => KvErrorView::Io(m@),
            KvError::DataFormat(m) => KvErrorView::DataFormat(m@),
            KvError::Db(m) => KvErrorView::Db(m@),
            KvError::Schema(v) => KvErrorView::Schema(v as int),
            KvError::ConfigFormat(m) => KvErrorView::ConfigFormat(m@),
            KvError::Time(m) => KvErrorView::Time(m@),
            KvError::NotFound(k) => KvErrorView::NotFound(k@),
            KvError::InvalidInput(m) => KvErrorView::InvalidInput(m@),
            KvError::PayloadTooLarge(n) => KvErrorView::PayloadTooLarge(n as nat),
        }
    }
}

impl KvErrorView {
    /// The text shown for an error.
    pub open spec fn message(self) -> Seq<char> {
        match self {
            KvErrorView::Io(m) => "I/O error: "@ + m,
            KvErrorView::DataFormat(m) => "data format error: "@ + m,
            KvErrorView::Db(m) => "database error: "@ + m,
            KvErrorView::Schema(v) => "unsupported schema version: "@ + text::signed_decimal(v),
            KvErrorView::ConfigFormat(m) => "config format error: "@ + m,
            KvErrorView::Time(m) => "time parse error: "@ + m,
            KvErrorView::NotFound(k) => "key not found: "@ + k,
            KvErrorView::InvalidInput(m) => m,
            KvErrorView::PayloadTooLarge(n) => "payload too large: "@ + text::decimal(n),
        }
    }
}

fn prefixed(prefix: &str, rest: &str) -> (r: String)
    ensures
        r@ == prefix@ + rest@,
{
    let mut out = String::from_str(prefix);
    out.append(rest);
    out
}

impl KvError {
    /// The text shown for this error.
    pub fn message(&self) -> (r: String)
        ensures
            r@ == self@.message(),
    {
        match self {
            KvError::Io(m) => prefixed("I/O error: ", m.as_str()),
            KvError::DataFormat(m) => prefixed("data format error: ", m.as_str()),
            KvError::Db(m) => prefixed("database error: ", m.as_str()),
            KvError::Schema(v) => {
                let digits = text::signed_decimal_text(*v);
                prefixed("unsupported schema version: ", digits.as_str())
            },
            KvError::ConfigFormat(m) => prefixed("config format error: ", m.as_str()),
            KvError::Time(m) => prefixed("time parse error: ", m.as_str()),
            KvError::NotFound(k) => prefixed("key not found: ", k.as_str()),
            KvError::InvalidInput(m) => m.clone(),
            KvError::PayloadTooLarge(n) => {
                let digits = text::decimal_text(*n as u64);
                prefixed("payload too large: ", digits.as_str())
            },
        }
    }
}

} // verus!
