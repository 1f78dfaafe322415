use vstd::prelude::*;
use vstd::string::StringExecFns;

verus! {

/// The closed set of failure classes a caller can see.
#[derive(PartialEq, Eq, Structural, Clone, Copy, Debug)]
pub enum ErrorKind {
    /// An append condition matched an event after its boundary position.
    Integrity,
    /// The store could not be reached, or the exchange with it failed.
    Transport,
    /// The store or a payload from it is structurally invalid.
    Corruption,
    /// A local input/output failure.
    Io,
    /// Caller-supplied input is malformed; no request was sent.
    Validation,
}

/// A classified failure together with its human-readable detail.
#[derive(Debug)]
pub struct StoreError {
    pub kind: ErrorKind,
    pub message: String,
}

/// The text shown in front of a failure's detail, by class.
pub open spec fn kind_prefix(kind: ErrorKind) -> Seq<char> {
    match kind {
        ErrorKind::Integrity => "UmaDB\\Exception\\IntegrityException: "@,
        ErrorKind::Transport => "UmaDB\\Exception\\TransportException: "@,
        ErrorKind::Corruption => "UmaDB\\Exception\\CorruptionException: "@,
        ErrorKind::Io => "UmaDB\\Exception\\IoException: "@,
        ErrorKind::Validation => "UmaDB\\Exception\\ValidationException: "@,
    }
}

impl StoreError {
    pub fn new(kind: ErrorKind, message: String) -> (r: StoreError)
        ensures
            r.kind == kind,
            r.message@ == message@,
    {
        StoreError { kind, message }
    }

    /// The full text of the failure as surfaced to callers: a class prefix
    /// followed by the detail.
    pub fn exception_message(&self) -> (r: String)
        ensures
            r@ == kind_prefix(self.kind) + self.message@,
    {
        let prefix = match self.kind {
            ErrorKind::Integrity => "UmaDB\\Exception\\IntegrityException: ",
            ErrorKind::Transport => "UmaDB\\Exception\\TransportException: ",
            ErrorKind::Corruption => "UmaDB\\Exception\\CorruptionException: ",
            ErrorKind::Io => "UmaDB\\Exception\\IoException: ",
            ErrorKind::Validation => "UmaDB\\Exception\\ValidationException: ",
        };
        let mut r = String::from_str(prefix);
        r.append(self.message.as_str());
        r
    }
}

} // verus!
