use vstd::prelude::*;

verus! {

/// The kinds of failure that loading or running a script can report.
#[derive(Debug, Clone, Copy, PartialEq, Eq, Structural)]
pub enum ScriptError {
    /// A literal could not be read as a value of the required type.
    ParseVarError,
    /// A type descriptor's text names no type.
    TypeUnknownError,
    /// An instruction tag names no instruction.
    CommandUnknownError,
    /// An instruction has too few operands, or an operand that it cannot
    /// take.
    CommandArgsInvalidError,
    /// A path names no variable.
    UnknownVarError,
    /// A value has another type than its use requires.
    TypeMismatchError,
    /// A value was read before it was given a payload.
    VarNotInitedError,
    /// A byte sequence is not valid UTF-8.
    StringUTF8Error,
    /// A variable was declared twice.
    VarInitedError,
    /// A name names no function.
    FunctionUnknownError,
    /// A file could not be read.
    FileReadError,
    /// A file could not be opened for writing.
    FileWriteError,
    /// A stream could not be read.
    StreamReadError,
    /// A stream could not be written.
    StreamWriteError,
}

impl ScriptError {
    /// The text that stands for an error where it is shown to a user: the
    /// same for every kind.
    pub fn to_string(&self) -> (r: String)
        ensures
            r@ == "some error ez"@,
    {
        "some error ez".to_owned()
    }
}

} // verus!
