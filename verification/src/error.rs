//! Error type shared by the library.

use vstd::prelude::*;

verus! {

/// Errors raised by the engine's components.
#[derive(Debug)]
pub enum Error {
    Storage(String),
    PageCache(String),
    Wal(String),
    Catalog(String),
    Transaction(String),
    Index(String),
    Executor(String),
    Internal(String),
    Io(String),
    Database(String),
    NotFound(String),
    InvalidId(String),
    ConstraintViolation(String),
    TypeMismatch { expected: String, actual: String },
    CypherSyntax(String),
    InvalidInput(String),
    OutOfMemory(String),
    GraphCorrelation(String),
}

/// The rendered message of an error: a fixed prefix per kind, then the detail.
pub open spec fn error_message(e: Error) -> Seq<char> {
    match e {
        Error::Storage(m) => "Storage error: "@ + m@,
        Error::PageCache(m) => "Page cache error: "@ + m@,
        Error::Wal(m) => "WAL error: "@ + m@,
        Error::Catalog(m) => "Catalog error: "@ + m@,
        Error::Transaction(m) => "Transaction error: "@ + m@,
        Error::Index(m) => "Index error: "@ + m@,
        Error::Executor(m) => "Executor error: "@ + m@,
        Error::Internal(m) => "Internal error: "@ + m@,
        Error::Io(m) => "I/O error: "@ + m@,
        Error::Database(m) => "Database error: "@ + m@,
        Error::NotFound(m) => "Not found: "@ + m@,
        Error::InvalidId(m) => "Invalid ID: "@ + m@,
        Error::ConstraintViolation(m) => "Constraint violation: "@ + m@,
        Error::TypeMismatch { expected, actual } =>
            "Type mismatch: expected "@ + expected@ + ", got "@ + actual@,
        Error::CypherSyntax(m) => "Cypher syntax error: "@ + m@,
        Error::InvalidInput(m) => "Invalid input: "@ + m@,
        Error::OutOfMemory(m) => "Out of memory: "@ + m@,
        Error::GraphCorrelation(m) => "Graph correlation error: "@ + m@,
    }
}

fn prefixed(prefix: &str, detail: &String) -> (s: String)
    ensures
        s@ == prefix@ + detail@,
{
    String::from_str(prefix).concat(detail.as_str())
}

fn text(s: &str) -> (r: String)
    ensures
        r@ == s@,
{
    String::from_str(s)
}

impl Error {
    /// A storage error with the given detail.
    pub fn storage(msg: &str) -> (e: Error)
        ensures
            e matches Error::Storage(m) && m@ == msg@,
    {
        Error::Storage(text(msg))
    }

    /// A page cache error with the given detail.
    pub fn page_cache(msg: &str) -> (e: Error)
        ensures
            e matches Error::PageCache(m) && m@ == msg@,
    {
        Error::PageCache(text(msg))
    }

    /// A write-ahead log error with the given detail.
    pub fn wal(msg: &str) -> (e: Error)
        ensures
            e matches Error::Wal(m) && m@ == msg@,
    {
        Error::Wal(text(msg))
    }

    /// A catalog error with the given detail.
    pub fn catalog(msg: &str) -> (e: Error)
        ensures
            e matches Error::Catalog(m) && m@ == msg@,
    {
        Error::Catalog(text(msg))
    }

    /// A transaction error with the given detail.
    pub fn transaction(msg: &str) -> (e: Error)
        ensures
            e matches Error::Transaction(m) && m@ == msg@,
    {
        Error::Transaction(text(msg))
    }

    /// An index error with the given detail.
    pub fn index(msg: &str) -> (e: Error)
        ensures
            e matches Error::Index(m) && m@ == msg@,
    {
        Error::Index(text(msg))
    }

    /// An executor error with the given detail.
    pub fn executor(msg: &str) -> (e: Error)
        ensures
            e matches Error::Executor(m) && m@ == msg@,
    {
        Error::Executor(text(msg))
    }

    /// An internal error with the given detail.
    pub fn internal(msg: &str) -> (e: Error)
        ensures
            e matches Error::Internal(m) && m@ == msg@,
    {
        Error::Internal(text(msg))
    }

    /// The error's message, as its `Display` rendering would read.
    pub fn to_string(&self) -> (s: String)
        ensures
            s@ == error_message(*self),
    {
        match self {
            Error::Storage(m) => prefixed("Storage error: ", m),
            Error::PageCache(m) => prefixed("Page cache error: ", m),
            Error::Wal(m) => prefixed("WAL error: ", m),
            Error::Catalog(m) => prefixed("Catalog error: ", m),
            Error::Transaction(m) => prefixed("Transaction error: ", m),
            Error::Index(m) => prefixed("Index error: ", m),
            Error::Executor(m) => prefixed("Executor error: ", m),
            Error::Internal(m) => prefixed("Internal error: ", m),
            Error::Io(m) => prefixed("I/O error: ", m),
            Error::Database(m) => prefixed("Database error: ", m),
            Error::NotFound(m) => prefixed("Not found: ", m),
            Error::InvalidId(m) => prefixed("Invalid ID: ", m),
            Error::ConstraintViolation(m) => prefixed("Constraint violation: ", m),
            Error::TypeMismatch { expected, actual } => {
                let head = prefixed("Type mismatch: expected ", expected);
                let mid = head.concat(", got ");
                mid.concat(actual.as_str())
            },
            Error::CypherSyntax(m) => prefixed("Cypher syntax error: ", m),
            Error::InvalidInput(m) => prefixed("Invalid input: ", m),
            Error::OutOfMemory(m) => prefixed("Out of memory: ", m),
            Error::GraphCorrelation(m) => prefixed("Graph correlation error: ", m),
        }
    }
}

} // verus!
