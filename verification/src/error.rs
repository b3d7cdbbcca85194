//! The errors of the language and the types its values can have.

use vstd::prelude::*;
use crate::dictionary::Label;
use crate::text::{decimal, decimal_string, push_str, string_of};

verus! {

/// The types a serv value can have.
#[derive(Copy, Clone, Debug, PartialEq, Eq, Structural)]
pub enum ServType {
    Nil,
    Ref,
    Func,
    Bool,
    Int,
    Float,
    Text,
    List,
    Table,
    Module,
}

impl ServType {
    /// The name of the type, as the language prints it.
    pub open spec fn name(self) -> Seq<char> {
        match self {
            ServType::Nil => "NONE"@,
            ServType::Ref => "REF"@,
            ServType::Func => "FUNC"@,
            ServType::Bool => "BOOL"@,
            ServType::Int => "INT"@,
            ServType::Float => "FLOAT"@,
            ServType::Text => "TEXT"@,
            ServType::List => "LIST"@,
            ServType::Table => "TABLE"@,
            ServType::Module => "MODULE"@,
        }
    }

    /// The name of the type, as the language prints it.
    pub fn to_string(&self) -> (r: String)
        ensures
            r@ == self.name(),
    {
        match self {
            ServType::Nil => string_of("NONE"),
            ServType::Ref => string_of("REF"),
            ServType::Func => string_of("FUNC"),
            ServType::Bool => string_of("BOOL"),
            ServType::Int => string_of("INT"),
            ServType::Float => string_of("FLOAT"),
            ServType::Text => string_of("TEXT"),
            ServType::List => string_of("LIST"),
            ServType::Table => string_of("TABLE"),
            ServType::Module => string_of("MODULE"),
        }
    }
}

/// An error of the language. Errors that come from outside (input and
/// output, text decoding) carry their message.
#[derive(Debug)]
pub enum ServError {
    Empty,
    Todo,
    General(u16, String),
    Io(String),
    Utf8(String),
    Fmt,
    MissingLabel(Label),
    UnexpectedType(ServType, ServType),
    InsertWithEmptyAddress,
    InsertIntoInvalidType,
}

impl ServError {
    /// A general error with a status code and a message.
    pub fn new(code: u16, message: &str) -> (r: Self)
        ensures
            r matches ServError::General(c, m) && c == code && m@ == message@,
    {
        ServError::General(code, string_of(message))
    }

    /// A value had the type `actual` where `expected` was needed.
    pub fn expected_type(expected: ServType, actual: ServType) -> (r: Self)
        ensures
            r == ServError::UnexpectedType(expected, actual),
    {
        ServError::UnexpectedType(expected, actual)
    }

    /// The error as text, the way the language reports it.
    pub fn to_string(&self) -> (r: String)
        ensures
            match self {
                ServError::General(code, message) =>
                    r@ == "err "@ + decimal(*code as nat) + ": "@ + message@,
                ServError::Io(message) => r@ == "io error: "@ + message@,
                ServError::Fmt => r@ == "fmt error: an error occurred when formatting an argument"@,
                ServError::MissingLabel(label) => r@ == "missing label "@ + match label {
                    Label::Name(s) => s@,
                    Label::Route(s) => s@,
                    Label::Anonymous(id) => "anonymous function "@ + decimal(*id as nat),
                },
                ServError::UnexpectedType(e, a) => r@ == "expected type "@ + e.name() + ", found "@ + a.name(),
                ServError::InsertWithEmptyAddress => r@ == "empty address"@,
                ServError::Empty => r@ == "Empty"@,
                ServError::Todo => r@ == "Todo"@,
                ServError::Utf8(m) => r@ == "Utf8("@ + m@ + ")"@,
                ServError::InsertIntoInvalidType => r@ == "InsertIntoInvalidType"@,
            },
    {
        match self {
            ServError::General(code, message) => {
                let mut out = string_of("err ");
                let n = decimal_string(*code as u64);
                push_str(&mut out, n.as_str());
                push_str(&mut out, ": ");
                push_str(&mut out, message.as_str());
                out
            },
            ServError::Io(message) => {
                let mut out = string_of("io error: ");
                push_str(&mut out, message.as_str());
                out
            },
            ServError::Fmt => string_of("fmt error: an error occurred when formatting an argument"),
            ServError::MissingLabel(label) => {
                let mut out = string_of("missing label ");
                let l = label.to_string();
                push_str(&mut out, l.as_str());
                out
            },
            ServError::UnexpectedType(e, a) => {
                let mut out = string_of("expected type ");
                let es = e.to_string();
                push_str(&mut out, es.as_str());
                push_str(&mut out, ", found ");
                let as_ = a.to_string();
                push_str(&mut out, as_.as_str());
                out
            },
            ServError::InsertWithEmptyAddress => string_of("empty address"),
            ServError::Empty => string_of("Empty"),
            ServError::Todo => string_of("Todo"),
            ServError::Utf8(m) => {
                let mut out = string_of("Utf8(");
                push_str(&mut out, m.as_str());
                push_str(&mut out, ")");
                out
            },
            ServError::InsertIntoInvalidType => string_of("InsertIntoInvalidType"),
        }
    }
}

} // verus!
