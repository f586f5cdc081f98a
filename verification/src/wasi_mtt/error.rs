use vstd::prelude::*;
use vstd::string::StringExecFns;

verus! {

/// The error codes an extension can receive from a host function.
#[derive(Debug, Clone, Copy, PartialEq, Eq, Structural)]
pub enum ErrorKind {
    /// Illegal byte sequence.
    Ilseq,
    /// Invalid argument.
    Inval,
    /// Value too large to be stored in data type.
    Overflow,
    /// I/O error.
    Io,
    /// Bad file descriptor.
    Badf,
    /// Permission denied.
    Perm,
}

/// What a host-side error was raised from.
#[derive(Debug, Clone, Copy, PartialEq, Eq, Structural)]
pub enum Cause {
    /// One of the error codes, raised by the host function itself.
    Kind(ErrorKind),
    /// A failed read or write.
    Io,
    /// An integer that did not fit its target type.
    IntConversion,
    /// Bytes that are not valid UTF-8.
    Utf8,
    /// Anything else. It has no error code and aborts the extension.
    Trap,
}

/// A host-side error: its cause and a message that describes it.
#[derive(Debug, Clone, PartialEq, Eq)]
pub struct Error {
    pub cause: Cause,
    pub message: String,
}

/// The constructors every host error type offers.
pub trait ErrorExt: Sized {
    spec fn spec_cause(&self) -> Cause;

    spec fn spec_message(&self) -> Seq<char>;

    /// An error without an error code. It aborts the extension.
    fn trap(msg: String) -> (e: Self)
        ensures
            e.spec_cause() == Cause::Trap,
            e.spec_message() == msg@,
    ;

    /// Bad file descriptor.
    fn badf() -> (e: Self)
        ensures
            e.spec_cause() == Cause::Kind(ErrorKind::Badf),
            e.spec_message() == Seq::<char>::empty(),
    ;

    /// Permission denied.
    fn perm() -> (e: Self)
        ensures
            e.spec_cause() == Cause::Kind(ErrorKind::Perm),
            e.spec_message() == Seq::<char>::empty(),
    ;
}

impl ErrorExt for Error {
    open spec fn spec_cause(&self) -> Cause {
        self.cause
    }

    open spec fn spec_message(&self) -> Seq<char> {
        self.message@
    }

    fn trap(msg: String) -> (e: Self) {
        Error { cause: Cause::Trap, message: msg }
    }

    fn badf() -> (e: Self) {
        Error { cause: Cause::Kind(ErrorKind::Badf), message: String::new() }
    }

    fn perm() -> (e: Self) {
        Error { cause: Cause::Kind(ErrorKind::Perm), message: String::new() }
    }
}

/// The error code that stands for a cause, if it has one.
pub open spec fn errno_of(cause: Cause) -> Option<ErrorKind> {
    match cause {
        Cause::Kind(kind) => Some(kind),
        Cause::Io => Some(ErrorKind::Io),
        Cause::IntConversion => Some(ErrorKind::Overflow),
        Cause::Utf8 => Some(ErrorKind::Ilseq),
        Cause::Trap => None,
    }
}

impl Error {
    /// An error raised from `cause`, with no message.
    pub fn from_cause(cause: Cause) -> (e: Error)
        ensures
            e.cause == cause,
            e.message@ == Seq::<char>::empty(),
    {
        Error { cause, message: String::new() }
    }

    /// The same error, described by `message`.
    pub fn context(self, message: &str) -> (e: Error)
        ensures
            e.cause == self.cause,
            e.message@ == message@,
    {
        Error { cause: self.cause, message: String::from_str(message) }
    }

    /// Turns the error into the code that is handed to the extension. An
    /// error without a code is handed back: it is not reported to the
    /// extension, it aborts it.
    pub fn errno(self) -> (r: Result<ErrorKind, Error>)
        ensures
            match r {
                Ok(kind) => errno_of(self.cause) == Some(kind),
                Err(e) => errno_of(self.cause).is_none() && e == self,
            },
    {
        match self.cause {
            Cause::Kind(kind) => Ok(kind),
            Cause::Io => Ok(ErrorKind::Io),
            Cause::IntConversion => Ok(ErrorKind::Overflow),
            Cause::Utf8 => Ok(ErrorKind::Ilseq),
            Cause::Trap => Err(self),
        }
    }
}

impl ErrorKind {
    /// The text that describes the code.
    pub fn message(&self) -> (s: String)
        ensures
            s@ == self.spec_message(),
    {
        match self {
            ErrorKind::Ilseq => String::from_str("Ilseq: Illegal byte sequence"),
            ErrorKind::Inval => String::from_str("Inval: Invalid argument"),
            ErrorKind::Overflow => String::from_str(
                "Overflow: Value too large to be stored in data type",
            ),
            ErrorKind::Io => String::from_str("Io: I/O error"),
            ErrorKind::Badf => String::from_str("Badf: Bad file descriptor"),
            ErrorKind::Perm => String::from_str("Permission denied"),
        }
    }

    /// The text that describes the code.
    pub open spec fn spec_message(&self) -> Seq<char> {
        match self {
            ErrorKind::Ilseq => "Ilseq: Illegal byte sequence"@,
            ErrorKind::Inval => "Inval: Invalid argument"@,
            ErrorKind::Overflow => "Overflow: Value too large to be stored in data type"@,
            ErrorKind::Io => "Io: I/O error"@,
            ErrorKind::Badf => "Badf: Bad file descriptor"@,
            ErrorKind::Perm => "Permission denied"@,
        }
    }
}

} // verus!
