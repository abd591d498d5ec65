//! Errors of setting up the log that goes to stdout and `dst-admin-go.log`.
use vstd::prelude::*;
use crate::text::push_str;

verus! {

broadcast use vstd::string::group_string_axioms;

/// The log file name used when none is given.
pub const DEFAULT_LOG_FILE: &'static str = "dst-admin-go.log";

/// Why logging could not be set up.
pub enum LoggingError {
    /// The log file could not be opened.
    OpenFile { path: String, source: String },
    /// A global subscriber was already installed or could not be.
    Install(String),
}

impl LoggingError {
    pub open spec fn message_spec(&self) -> Seq<char> {
        match self {
            LoggingError::OpenFile { path, source } =>
                "failed to open log file `"@ + path@ + "`: "@ + source@,
            LoggingError::Install(e) => "failed to install tracing subscriber: "@ + e@,
        }
    }

    /// The error's display text.
    pub fn message(&self) -> (m: String)
        ensures
            m@ == self.message_spec(),
    {
        match self {
            LoggingError::OpenFile { path, source } => {
                let mut m = "failed to open log file `".to_string();
                push_str(&mut m, path.as_str());
                push_str(&mut m, "`: ");
                push_str(&mut m, source.as_str());
                m
            },
            LoggingError::Install(e) => {
                let mut m = "failed to install tracing subscriber: ".to_string();
                push_str(&mut m, e.as_str());
                m
            },
        }
    }
}

} // verus!
