//! Error values of the virtual machine and their numeric codes.
use vstd::prelude::*;

verus! {

/// Numeric error codes, one per kind of [`Error`].
#[derive(Debug, Clone, Copy, PartialEq, Eq)]
pub enum ErrorCode {
    SegFault,
    NotFound,
    WildPointer,
    Duplicated,
    InvalidOperation,
    SizeMismatch,
    InvalidType,
    OutOfIndex,
    OutOfMemory,
    IOError,
    EOFError,
    InvalidIdentifier,
    SyntaxError,
    UnrecognizedError,
}

/// The number that stands for each error code.
pub open spec fn spec_error_code_value(c: ErrorCode) -> u32 {
    match c {
        ErrorCode::SegFault => 0xC000_0005,
        ErrorCode::NotFound => 0xD000_0005,
        ErrorCode::WildPointer => 0xE000_0005,
        ErrorCode::Duplicated => 0xF000_0005,
        ErrorCode::InvalidOperation => 0x0000_000A,
        ErrorCode::SizeMismatch => 0x0000_000B,
        ErrorCode::InvalidType => 0x0000_000C,
        ErrorCode::OutOfIndex => 0x0000_000D,
        ErrorCode::OutOfMemory => 0x0000_000E,
        ErrorCode::IOError => 0x0000_000F,
        ErrorCode::EOFError => 0x0000_0010,
        ErrorCode::InvalidIdentifier => 0x0000_0011,
        ErrorCode::SyntaxError => 0x0000_0012,
        ErrorCode::UnrecognizedError => 0x0000_0013,
    }
}

impl ErrorCode {
    /// The numeric value of this code.
    pub fn value(&self) -> (res: u32)
        ensures
            res == spec_error_code_value(*self),
    {
        match self {
            ErrorCode::SegFault => 0xC000_0005,
            ErrorCode::NotFound => 0xD000_0005,
            ErrorCode::WildPointer => 0xE000_0005,
            ErrorCode::Duplicated => 0xF000_0005,
            ErrorCode::InvalidOperation => 0x0000_000A,
            ErrorCode::SizeMismatch => 0x0000_000B,
            ErrorCode::InvalidType => 0x0000_000C,
            ErrorCode::OutOfIndex => 0x0000_000D,
            ErrorCode::OutOfMemory => 0x0000_000E,
            ErrorCode::IOError => 0x0000_000F,
            ErrorCode::EOFError => 0x0000_0010,
            ErrorCode::InvalidIdentifier => 0x0000_0011,
            ErrorCode::SyntaxError => 0x0000_0012,
            ErrorCode::UnrecognizedError => 0x0000_0013,
        }
    }
}

/// An error raised by the memory pool, the environments, the assembler or the
/// interpreter. Each kind carries a human-readable message.
#[derive(Debug, Clone, PartialEq, Eq)]
pub enum Error {
    SegFault(String),
    NotFound(String),
    WildPointer(String),
    Duplicated(String),
    InvalidOperation(String),
    SizeMismatch(String),
    InvalidType(String),
    OutOfIndex(String),
    OutOfMemory(String),
    IOError(String),
    EOFError(String),
    InvalidIdentifier(String),
    SyntaxError(String),
    UnrecognizedError(String, u32),
}

/// The kind of an error, forgetting its message.
pub open spec fn spec_error_kind(e: Error) -> ErrorCode {
    match e {
        Error::SegFault(_) => ErrorCode::SegFault,
        Error::NotFound(_) => ErrorCode::NotFound,
        Error::WildPointer(_) => ErrorCode::WildPointer,
        Error::Duplicated(_) => ErrorCode::Duplicated,
        Error::InvalidOperation(_) => ErrorCode::InvalidOperation,
        Error::SizeMismatch(_) => ErrorCode::SizeMismatch,
        Error::InvalidType(_) => ErrorCode::InvalidType,
        Error::OutOfIndex(_) => ErrorCode::OutOfIndex,
        Error::OutOfMemory(_) => ErrorCode::OutOfMemory,
        Error::IOError(_) => ErrorCode::IOError,
        Error::EOFError(_) => ErrorCode::EOFError,
        Error::InvalidIdentifier(_) => ErrorCode::InvalidIdentifier,
        Error::SyntaxError(_) => ErrorCode::SyntaxError,
        Error::UnrecognizedError(_, _) => ErrorCode::UnrecognizedError,
    }
}

/// The numeric code of an error: the fixed code of its kind, or the code
/// that an unrecognized error carries.
pub open spec fn spec_code(e: Error) -> u32 {
    match e {
        Error::UnrecognizedError(_, code) => code,
        _ => spec_error_code_value(spec_error_kind(e)),
    }
}

/// The kinds of I/O failure that the virtual machine tells apart.
#[derive(Debug, Clone, Copy, PartialEq, Eq)]
pub enum IoFailure {
    OutOfMemory,
    InvalidData,
    UnexpectedEof,
    Unsupported,
    Other,
}

/// The error that an I/O failure of the given kind becomes: four kinds map
/// to a kind of their own, every other one is unrecognized and carries the
/// operating system's code (0 when there is none) reinterpreted as unsigned.
pub open spec fn spec_from_io(kind: IoFailure, raw_os_error: Option<i32>) -> ErrorCode {
    match kind {
        IoFailure::OutOfMemory => ErrorCode::OutOfMemory,
        IoFailure::InvalidData => ErrorCode::InvalidType,
        IoFailure::UnexpectedEof => ErrorCode::EOFError,
        IoFailure::Unsupported => ErrorCode::InvalidOperation,
        IoFailure::Other => ErrorCode::UnrecognizedError,
    }
}

impl Error {
    /// The numeric code of this error.
    pub fn code(&self) -> (res: u32)
        ensures
            res == spec_code(*self),
    {
        match self {
            Error::SegFault(_) => ErrorCode::SegFault.value(),
            Error::NotFound(_) => ErrorCode::NotFound.value(),
            Error::WildPointer(_) => ErrorCode::WildPointer.value(),
            Error::Duplicated(_) => ErrorCode::Duplicated.value(),
            Error::InvalidOperation(_) => ErrorCode::InvalidOperation.value(),
            Error::SizeMismatch(_) => ErrorCode::SizeMismatch.value(),
            Error::InvalidType(_) => ErrorCode::InvalidType.value(),
            Error::OutOfIndex(_) => ErrorCode::OutOfIndex.value(),
            Error::OutOfMemory(_) => ErrorCode::OutOfMemory.value(),
            Error::IOError(_) => ErrorCode::IOError.value(),
            Error::EOFError(_) => ErrorCode::EOFError.value(),
            Error::InvalidIdentifier(_) => ErrorCode::InvalidIdentifier.value(),
            Error::SyntaxError(_) => ErrorCode::SyntaxError.value(),
            Error::UnrecognizedError(_, code) => *code,
        }
    }

    /// Converts an I/O failure, given by its kind, its message and the
    /// operating system's error number, into an error of this library.
    pub fn from_io(kind: IoFailure, message: String, raw_os_error: Option<i32>) -> (res: Error)
        ensures
            spec_error_kind(res) == spec_from_io(kind, raw_os_error),
            res matches Error::UnrecognizedError(m, code) ==> m == message && code == (match raw_os_error {
                Some(c) => c as u32,
                None => 0u32,
            }),
            spec_error_kind(res) != ErrorCode::UnrecognizedError ==> spec_message(res) == message,
    {
        match kind {
            IoFailure::OutOfMemory => Error::OutOfMemory(message),
            IoFailure::InvalidData => Error::InvalidType(message),
            IoFailure::UnexpectedEof => Error::EOFError(message),
            IoFailure::Unsupported => Error::InvalidOperation(message),
            IoFailure::Other => {
                let code: u32 = match raw_os_error {
                    Some(c) => c as u32,
                    None => 0u32,
                };
                Error::UnrecognizedError(message, code)
            },
        }
    }
}

/// The message that an error carries.
pub open spec fn spec_message(e: Error) -> String {
    match e {
        Error::SegFault(m) => m,
        Error::NotFound(m) => m,
        Error::WildPointer(m) => m,
        Error::Duplicated(m) => m,
        Error::InvalidOperation(m) => m,
        Error::SizeMismatch(m) => m,
        Error::InvalidType(m) => m,
        Error::OutOfIndex(m) => m,
        Error::OutOfMemory(m) => m,
        Error::IOError(m) => m,
        Error::EOFError(m) => m,
        Error::InvalidIdentifier(m) => m,
        Error::SyntaxError(m) => m,
        Error::UnrecognizedError(m, _) => m,
    }
}


/// An error as the specifications of readers describe it: its kind and
/// what holds of the text of its message.
pub struct Fault {
    pub kind: ErrorCode,
    pub text: spec_fn(Seq<char>) -> bool,
}

/// A fault of kind `kind` whose message is `text`.
pub open spec fn fixed_fault(kind: ErrorCode, text: Seq<char>) -> Fault {
    Fault { kind, text: |t: Seq<char>| t == text }
}

/// Whether `e` is the fault `f`: its kind, and a message of which `f`'s
/// text holds.
pub open spec fn is_fault(e: Error, f: Fault) -> bool {
    spec_error_kind(e) == f.kind && (f.text)(spec_message(e)@)
}

} // verus!
