//! The library's error type.

use vstd::prelude::*;
use crate::text::{push_str_chars, string_from_chars};

verus! {

#[derive(Debug)]
pub enum HiquantError {
    InvalidArgument(String),
    NotFound(String),
    Account(String),
    Position(String),
    Order(String),
    Market(String),
    Broker(String),
    DataSource(String),
    Storage(String),
    RiskCheck(String),
    /// An I/O failure, by its description.
    Io(String),
    /// A JSON failure, by its description.
    SerdeJson(String),
    Other(String),
}

/// The variant of a `HiquantError`, without its message.
#[derive(Debug, Clone, Copy, PartialEq, Eq, Structural)]
pub enum ErrorKind {
    InvalidArgument,
    NotFound,
    Account,
    Position,
    Order,
    Market,
    Broker,
    DataSource,
    Storage,
    RiskCheck,
    Io,
    SerdeJson,
    Other,
}

impl View for HiquantError {
    type V = (ErrorKind, Seq<char>);

    /// The error's kind and message text.
    open spec fn view(&self) -> (ErrorKind, Seq<char>) {
        match self {
            HiquantError::InvalidArgument(m) => (ErrorKind::InvalidArgument, m@),
            HiquantError::NotFound(m) => (ErrorKind::NotFound, m@),
            HiquantError::Account(m) => (ErrorKind::Account, m@),
            HiquantError::Position(m) => (ErrorKind::Position, m@),
            HiquantError::Order(m) => (ErrorKind::Order, m@),
            HiquantError::Market(m) => (ErrorKind::Market, m@),
            HiquantError::Broker(m) => (ErrorKind::Broker, m@),
            HiquantError::DataSource(m) => (ErrorKind::DataSource, m@),
            HiquantError::Storage(m) => (ErrorKind::Storage, m@),
            HiquantError::RiskCheck(m) => (ErrorKind::RiskCheck, m@),
            HiquantError::Io(m) => (ErrorKind::Io, m@),
            HiquantError::SerdeJson(m) => (ErrorKind::SerdeJson, m@),
            HiquantError::Other(m) => (ErrorKind::Other, m@),
        }
    }
}

/// How an error of each kind introduces its message.
pub open spec fn kind_prefix(k: ErrorKind) -> Seq<char> {
    match k {
        ErrorKind::InvalidArgument => "invalid argument: "@,
        ErrorKind::NotFound => "not found: "@,
        ErrorKind::Account => "account error: "@,
        ErrorKind::Position => "position error: "@,
        ErrorKind::Order => "order error: "@,
        ErrorKind::Market => "market error: "@,
        ErrorKind::Broker => "broker error: "@,
        ErrorKind::DataSource => "data source error: "@,
        ErrorKind::Storage => "storage error: "@,
        ErrorKind::RiskCheck => "risk check failed: "@,
        ErrorKind::Io => "io error: "@,
        ErrorKind::SerdeJson => "serde json error: "@,
        ErrorKind::Other => "other: "@,
    }
}

impl HiquantError {
    pub fn other(msg: String) -> (r: HiquantError)
        ensures
            r@ == (ErrorKind::Other, msg@),
    {
        HiquantError::Other(msg)
    }

    /// The error as text: its kind's introduction, then its message.
    pub fn message(&self) -> (r: String)
        ensures
            r@ == kind_prefix(self@.0) + self@.1,
    {
        let (prefix, m): (&str, &String) = match self {
            HiquantError::InvalidArgument(m) => ("invalid argument: ", m),
            HiquantError::NotFound(m) => ("not found: ", m),
            HiquantError::Account(m) => ("account error: ", m),
            HiquantError::Position(m) => ("position error: ", m),
            HiquantError::Order(m) => ("order error: ", m),
            HiquantError::Market(m) => ("market error: ", m),
            HiquantError::Broker(m) => ("broker error: ", m),
            HiquantError::DataSource(m) => ("data source error: ", m),
            HiquantError::Storage(m) => ("storage error: ", m),
            HiquantError::RiskCheck(m) => ("risk check failed: ", m),
            HiquantError::Io(m) => ("io error: ", m),
            HiquantError::SerdeJson(m) => ("serde json error: ", m),
            HiquantError::Other(m) => ("other: ", m),
        };
        let mut v: Vec<char> = Vec::new();
        push_str_chars(&mut v, prefix);
        push_str_chars(&mut v, m.as_str());
        string_from_chars(v)
    }
}

} // verus!
