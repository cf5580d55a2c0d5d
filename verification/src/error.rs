//! Errors of the library. Each variant carries its message; `message` renders it with
//! the kind prefix the way the error is shown to users.

use vstd::prelude::*;

use crate::text::join2;

verus! {

/// What went wrong.
#[derive(Debug, Clone)]
pub enum Error {
    /// Reading or writing a file, socket or child process failed.
    Io(String),
    /// A YAML document could not be parsed.
    Yaml(String),
    /// A JSON document could not be parsed or written.
    Json(String),
    /// A manifest, request or reply broke a rule.
    Validation(String),
    /// A lifecycle transition was refused.
    Lifecycle(String),
    /// The policy gate refused a Cell.
    PolicyDenied(String),
    /// A binding could not be used or applied.
    Binding(String),
    /// A Cell, handler or record is unknown.
    NotFound(String),
    /// A call took longer than allowed.
    Timeout(String),
}

/// Results of the library.
pub type Result<T> = core::result::Result<T, Error>;

/// The kind prefix of an error's rendering.
pub open spec fn error_prefix(e: Error) -> Seq<char> {
    match e {
        Error::Io(_) => "io: "@,
        Error::Yaml(_) => "yaml: "@,
        Error::Json(_) => "json: "@,
        Error::Validation(_) => "validation: "@,
        Error::Lifecycle(_) => "lifecycle: "@,
        Error::PolicyDenied(_) => "policy denied: "@,
        Error::Binding(_) => "binding: "@,
        Error::NotFound(_) => "not found: "@,
        Error::Timeout(_) => "timeout: "@,
    }
}

/// The message an error carries.
pub open spec fn error_detail(e: Error) -> Seq<char> {
    match e {
        Error::Io(m) => m@,
        Error::Yaml(m) => m@,
        Error::Json(m) => m@,
        Error::Validation(m) => m@,
        Error::Lifecycle(m) => m@,
        Error::PolicyDenied(m) => m@,
        Error::Binding(m) => m@,
        Error::NotFound(m) => m@,
        Error::Timeout(m) => m@,
    }
}

/// `e` is a validation error with message `m`.
pub open spec fn is_validation(e: Error, m: Seq<char>) -> bool {
    e matches Error::Validation(s) && s@ == m
}

/// `e` is a binding error with message `m`.
pub open spec fn is_binding(e: Error, m: Seq<char>) -> bool {
    e matches Error::Binding(s) && s@ == m
}

/// `e` is a not-found error with message `m`.
pub open spec fn is_not_found(e: Error, m: Seq<char>) -> bool {
    e matches Error::NotFound(s) && s@ == m
}

/// `e` is a lifecycle error with message `m`.
pub open spec fn is_lifecycle(e: Error, m: Seq<char>) -> bool {
    e matches Error::Lifecycle(s) && s@ == m
}

impl Error {
    /// The error as users see it: kind prefix, then the message.
    pub fn message(&self) -> (r: String)
        ensures
            r@ == error_prefix(*self) + error_detail(*self),
    {
        match self {
            Error::Io(m) => join2("io: ", m.as_str()),
            Error::Yaml(m) => join2("yaml: ", m.as_str()),
            Error::Json(m) => join2("json: ", m.as_str()),
            Error::Validation(m) => join2("validation: ", m.as_str()),
            Error::Lifecycle(m) => join2("lifecycle: ", m.as_str()),
            Error::PolicyDenied(m) => join2("policy denied: ", m.as_str()),
            Error::Binding(m) => join2("binding: ", m.as_str()),
            Error::NotFound(m) => join2("not found: ", m.as_str()),
            Error::Timeout(m) => join2("timeout: ", m.as_str()),
        }
    }
}

} // verus!
