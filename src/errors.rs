use vstd::prelude::*;

use crate::frame::{Frame, FrameModel};

verus! {

/// Errors raised while decoding bytes into a frame.
#[derive(Debug, Clone, Copy, PartialEq, Eq)]
pub enum FrameErrors {
    /// The type tag is none of `+`, `:`, `$`, `*`.
    IncorrectFirstByte(u8),
    /// The input (or a segment of it) lacks its CR LF terminator.
    MissingCRLF,
    /// A bulk string's payload does not have the announced length.
    IncorrectBulkStringLength,
    /// An array item is not a bulk string, or is truncated.
    WrongArrayItemFormat,
    /// The frame has no UTF-8 text interpretation.
    StringInterpretationError,
}


/// Errors raised while turning a frame into a command.
#[derive(Debug, PartialEq)]
pub enum CmdErrors {
    /// The frame is not a non-empty array.
    InvalidArrayFrame,
    /// An argument is not a bulk string.
    IncorrectCommandArg { command_name: &'static str, arg: Frame },
    /// An argument is missing.
    MissingCommandArg { command_name: &'static str, arg_name: &'static str },
    /// The command name is none of the known ones.
    UnknownCommand(String),
    /// The command name has no text interpretation.
    Frame(FrameErrors),
    /// A key is not valid UTF-8.
    KeyNotUtf8,
}

/// A command error as a mathematical value.
pub enum CmdErrorModel {
    InvalidArrayFrame,
    IncorrectCommandArg(Seq<char>, FrameModel),
    MissingCommandArg(Seq<char>, Seq<char>),
    UnknownCommand(Seq<char>),
    Frame(FrameErrors),
    KeyNotUtf8,
}

impl View for CmdErrors {
    type V = CmdErrorModel;

    open spec fn view(&self) -> CmdErrorModel {
        match self {
            CmdErrors::InvalidArrayFrame => CmdErrorModel::InvalidArrayFrame,
            CmdErrors::IncorrectCommandArg { command_name, arg } => CmdErrorModel::IncorrectCommandArg(
                command_name@,
                arg@,
            ),
            CmdErrors::MissingCommandArg { command_name, arg_name } => CmdErrorModel::MissingCommandArg(
                command_name@,
                arg_name@,
            ),
            CmdErrors::UnknownCommand(name) => CmdErrorModel::UnknownCommand(name@),
            CmdErrors::Frame(e) => CmdErrorModel::Frame(*e),
            CmdErrors::KeyNotUtf8 => CmdErrorModel::KeyNotUtf8,
        }
    }
}

} // verus!
