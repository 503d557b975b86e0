//! Failures of a random source, and how a caller should react to each.

use vstd::prelude::*;

verus! {

/// The class of a failure, telling the caller whether trying again can help.
#[derive(PartialEq, Eq, Debug, Copy, Clone, Structural)]
pub enum ErrorKind {
    /// Permanent failure: likely not recoverable without user action.
    Unavailable,
    /// Temporary failure: trying again a few times may succeed.
    Transient,
    /// Not ready yet: trying again a little later should succeed.
    NotReady,
    /// A failure of no known class.
    Other,
}

impl ErrorKind {
    /// Whether a failure of this kind may go away when the operation is tried again.
    pub open spec fn spec_should_retry(self) -> bool {
        self == ErrorKind::Transient || self == ErrorKind::NotReady
    }

    /// Whether the caller should wait before trying again.
    pub open spec fn spec_should_wait(self) -> bool {
        self == ErrorKind::NotReady
    }

    /// The text that describes this kind.
    pub open spec fn spec_description(self) -> Seq<char> {
        match self {
            ErrorKind::Unavailable => "permanent failure or unavailable"@,
            ErrorKind::Transient => "transient failure"@,
            ErrorKind::NotReady => "not ready yet"@,
            ErrorKind::Other => "uncategorised"@,
        }
    }

    /// True if this kind of error may resolve itself on retry.
    #[verifier::when_used_as_spec(spec_should_retry)]
    pub fn should_retry(self) -> (retry: bool)
        ensures
            retry == self.spec_should_retry(),
    {
        match self {
            ErrorKind::Transient | ErrorKind::NotReady => true,
            _ => false,
        }
    }

    /// True if we should retry but wait before retrying.
    #[verifier::when_used_as_spec(spec_should_wait)]
    pub fn should_wait(self) -> (wait: bool)
        ensures
            wait == self.spec_should_wait(),
    {
        match self {
            ErrorKind::NotReady => true,
            _ => false,
        }
    }

    /// A description of this error kind.
    pub fn description(self) -> (text: &'static str)
        ensures
            text@ == self.spec_description(),
    {
        match self {
            ErrorKind::Unavailable => "permanent failure or unavailable",
            ErrorKind::Transient => "transient failure",
            ErrorKind::NotReady => "not ready yet",
            ErrorKind::Other => "uncategorised",
        }
    }
}

/// Waiting is only ever advised for a failure that is worth retrying.
pub proof fn lemma_wait_implies_retry(kind: ErrorKind)
    ensures
        kind.spec_should_wait() ==> kind.spec_should_retry(),
{
}

/// Error type of random number generators.
///
/// It carries an [`ErrorKind`] that can be matched over, a message that tells what
/// happened, and optionally the error that caused it.
#[derive(Debug)]
pub struct Error {
    /// Error kind, to aid handling of errors.
    pub kind: ErrorKind,
    msg: &'static str,
    cause: Option<Box<Error>>,
}

impl Error {
    /// The kind of this error.
    pub closed spec fn spec_kind(&self) -> ErrorKind {
        self.kind
    }

    /// The message of this error.
    pub closed spec fn spec_msg(&self) -> Seq<char> {
        self.msg@
    }

    /// The error this one was chained from, if any.
    pub closed spec fn spec_cause(&self) -> Option<Error> {
        match self.cause {
            Some(boxed) => Some(*boxed),
            None => None,
        }
    }

    /// Create a new instance, with specified kind and a message.
    pub fn new(kind: ErrorKind, msg: &'static str) -> (e: Self)
        ensures
            e.spec_kind() == kind,
            e.spec_msg() == msg@,
            e.spec_cause() is None,
    {
        Error { kind, msg, cause: None }
    }

    /// Create a new instance, with specified kind, message, and a chained cause.
    pub fn new_with_cause(kind: ErrorKind, msg: &'static str, cause: Error) -> (e: Self)
        ensures
            e.spec_kind() == kind,
            e.spec_msg() == msg@,
            e.spec_cause() == Some(cause),
    {
        Error { kind, msg, cause: Some(Box::new(cause)) }
    }

    /// Get the error kind.
    pub fn kind(&self) -> (k: ErrorKind)
        ensures
            k == self.spec_kind(),
    {
        self.kind
    }

    /// Get the error message.
    pub fn msg(&self) -> (m: &'static str)
        ensures
            m@ == self.spec_msg(),
    {
        self.msg
    }

    /// The error that caused this one, if one was recorded.
    pub fn cause(&self) -> (c: Option<&Error>)
        ensures
            match c {
                Some(inner) => self.spec_cause() == Some(*inner),
                None => self.spec_cause() is None,
            },
    {
        match &self.cause {
            Some(boxed) => Some(&**boxed),
            None => None,
        }
    }

    /// The text shown for this error: `RNG error [<kind>]: <message>`.
    pub open spec fn spec_to_string(&self) -> Seq<char> {
        "RNG error ["@ + self.spec_kind().spec_description() + "]: "@ + self.spec_msg()
    }

    /// Render this error as `RNG error [<kind>]: <message>`.
    pub fn to_string(&self) -> (text: String)
        ensures
            text@ == self.spec_to_string(),
    {
        let mut text = String::from_str("RNG error [");
        text.append(self.kind.description());
        text.append("]: ");
        text.append(self.msg);
        text
    }
}

} // verus!
