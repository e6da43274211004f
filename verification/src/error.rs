use vstd::prelude::*;

verus! {

/// What went wrong: malformed input text, no retained sites, or invalid
/// settings. Parse failures abort before any output is produced; the
/// no-data condition is reported distinctly since the inputs were
/// well-formed.
#[derive(Clone, Copy, Debug, PartialEq, Eq, Structural)]
pub enum ErrorKind {
    Parse,
    NoData,
    Config,
}

/// A fatal error carrying its kind and a descriptive message.
#[derive(Debug)]
pub struct Error {
    pub kind: ErrorKind,
    pub message: String,
}

impl Error {
    /// Build a parse error carrying `message`.
    pub fn new(message: &str) -> (r: Self)
        ensures
            r.kind == ErrorKind::Parse,
            r.message@ == message@,
    {
        Error { kind: ErrorKind::Parse, message: message.to_owned() }
    }

    /// Build the error reported when no site survives filtering.
    pub fn no_data(message: &str) -> (r: Self)
        ensures
            r.kind == ErrorKind::NoData,
            r.message@ == message@,
    {
        Error { kind: ErrorKind::NoData, message: message.to_owned() }
    }

    /// Build the error reported for invalid settings.
    pub fn config(message: &str) -> (r: Self)
        ensures
            r.kind == ErrorKind::Config,
            r.message@ == message@,
    {
        Error { kind: ErrorKind::Config, message: message.to_owned() }
    }
}

} // verus!
