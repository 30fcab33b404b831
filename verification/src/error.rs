use vstd::prelude::*;

use crate::text::{append, string_from};

verus! {

/// Why a command, or a display, was refused.
#[derive(Clone, Debug, PartialEq, Eq)]
pub enum CommandError {
    Empty,
    UnknownCommand(String),
    MissingArgument(&'static str),
    WrongArgumentCount,
    InvalidValue(&'static str),
    InvalidDisplay,
    OffsetOutsideDisplay,
}

/// The message that describes an error to the user.
pub open spec fn error_text(error: CommandError) -> Seq<char> {
    match error {
        CommandError::Empty => "command is empty"@,
        CommandError::UnknownCommand(name) => "unknown command: "@ + name@,
        CommandError::MissingArgument(name) => "missing argument: "@ + name@,
        CommandError::WrongArgumentCount => "wrong argument count"@,
        CommandError::InvalidValue(name) => "invalid value: "@ + name@,
        CommandError::InvalidDisplay => "display dimensions must be non-zero"@,
        CommandError::OffsetOutsideDisplay => "offset places the crosshair outside the display"@,
    }
}

impl CommandError {
    /// The message that describes the error, as it is shown to the user.
    pub fn message(&self) -> (text: String)
        ensures
            text@ == error_text(*self),
    {
        let mut out: Vec<char> = Vec::new();
        match self {
            CommandError::Empty => append(&mut out, "command is empty"),
            CommandError::UnknownCommand(name) => {
                append(&mut out, "unknown command: ");
                append(&mut out, name.as_str());
            },
            CommandError::MissingArgument(name) => {
                append(&mut out, "missing argument: ");
                append(&mut out, name);
            },
            CommandError::WrongArgumentCount => append(&mut out, "wrong argument count"),
            CommandError::InvalidValue(name) => {
                append(&mut out, "invalid value: ");
                append(&mut out, name);
            },
            CommandError::InvalidDisplay => append(&mut out, "display dimensions must be non-zero"),
            CommandError::OffsetOutsideDisplay => append(
                &mut out,
                "offset places the crosshair outside the display",
            ),
        }
        assert(out@ =~= error_text(*self));
        string_from(&out)
    }
}

} // verus!
