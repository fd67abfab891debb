use vstd::prelude::*;

verus! {

/// What stops a run, or the processing of one file.
#[derive(Debug, Clone, Copy, PartialEq, Eq, Structural)]
pub enum CoreError {
    NoBinaryPath,
    NoTask,
    NoCombos,
    TaskNotImplemented,
    NoResults,
    UnexpectedArgs,
    /// A source file cannot be opened or read.
    SourceUnreadable,
    /// One line cannot be decoded.
    LineDecodeError,
    /// The destination already exists; it is never overwritten.
    DestinationExists,
    /// A destination directory or file cannot be created.
    DestinationUnwritable,
    /// Writing to a destination failed midway.
    WriteFailure,
}

/// The message shown to the operator for each error.
pub open spec fn message_of(e: CoreError) -> Seq<char> {
    match e {
        CoreError::NoBinaryPath => "executable can't be read"@,
        CoreError::NoTask => "task does not specified"@,
        CoreError::NoCombos => "combos path does not specified"@,
        CoreError::TaskNotImplemented => "task does not implemented"@,
        CoreError::NoResults => "no results"@,
        CoreError::UnexpectedArgs => "unexpected error with args"@,
        CoreError::SourceUnreadable => "source file can't be read"@,
        CoreError::LineDecodeError => "line can't be decoded"@,
        CoreError::DestinationExists => "destination already exists"@,
        CoreError::DestinationUnwritable => "destination can't be created"@,
        CoreError::WriteFailure => "write to destination failed"@,
    }
}

impl CoreError {
    /// The message shown to the operator.
    pub fn message(&self) -> (r: &'static str)
        ensures
            r@ == message_of(*self),
    {
        match self {
            CoreError::NoBinaryPath => "executable can't be read",
            CoreError::NoTask => "task does not specified",
            CoreError::NoCombos => "combos path does not specified",
            CoreError::TaskNotImplemented => "task does not implemented",
            CoreError::NoResults => "no results",
            CoreError::UnexpectedArgs => "unexpected error with args",
            CoreError::SourceUnreadable => "source file can't be read",
            CoreError::LineDecodeError => "line can't be decoded",
            CoreError::DestinationExists => "destination already exists",
            CoreError::DestinationUnwritable => "destination can't be created",
            CoreError::WriteFailure => "write to destination failed",
        }
    }
}

} // verus!
