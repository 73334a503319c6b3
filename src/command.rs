//! Commands: parsed from an array frame, run against the store, answered
//! with a frame.
use vstd::prelude::*;
use vstd::slice::slice_to_vec;
use vstd::string::StrSliceExecFns;
use vstd::utf8::{decode_utf8, valid_utf8};

use crate::errors::{CmdErrorModel, CmdErrors, FrameErrors};
use crate::frame::{frames_view, text_of, Frame, FrameModel};
use crate::storage::Storage;
use crate::text::utf8_text;

verus! {

/// Name of the command that answers `PONG`.
pub const PING: &'static str = "ping";

/// Name of the command that answers with its argument.
pub const ECHO: &'static str = "echo";

/// Name of the command that stores a value.
pub const SET: &'static str = "set";

/// Name of the command that reads a value.
pub const GET: &'static str = "get";

/// Name of ECHO's argument.
pub const MESSAGE_ARG: &'static str = "message";

/// Name of SET's and GET's first argument.
pub const KEY_ARG: &'static str = "key";

/// Name of SET's second argument.
pub const VALUE_ARG: &'static str = "value";

/// The code of `c`, with ASCII capitals lowered.
pub open spec fn lower_code(c: char) -> u32 {
    let x = c as u32;
    if 65 <= x <= 90 {
        (x + 32) as u32
    } else {
        x
    }
}

/// `name` equals the lower-case `target` up to ASCII case.
pub open spec fn names_match(name: Seq<char>, target: Seq<char>) -> bool {
    &&& name.len() == target.len()
    &&& forall|i: int| 0 <= i < name.len() ==> lower_code(#[trigger] name[i]) == target[i] as u32
}

/// Whether `name`, with its ASCII capitals lowered, equals `target`.
pub fn name_is(name: &str, target: &str) -> (r: bool)
    ensures
        r == names_match(name@, target@),
{
    let n = name.unicode_len();
    if n != target.unicode_len() {
        return false;
    }
    let mut i: usize = 0;
    while i < n
        invariant
            i <= n,
            n == name@.len(),
            n == target@.len(),
            forall|j: int| 0 <= j < i ==> lower_code(#[trigger] name@[j]) == target@[j] as u32,
        decreases n - i,
    {
        let c = name.get_char(i) as u32;
        let lower = if 65 <= c && c <= 90 {
            c + 32
        } else {
            c
        };
        if lower != target.get_char(i) as u32 {
            return false;
        }
        i = i + 1;
    }
    true
}

/// `PONG`
pub open spec fn pong() -> Seq<u8> {
    seq![80u8, 79u8, 78u8, 71u8]
}

/// `OK`
pub open spec fn ok() -> Seq<u8> {
    seq![79u8, 75u8]
}

/// A command as a mathematical value.
pub enum CommandModel {
    Ping,
    Echo(Seq<u8>),
    SetCmd(Seq<char>, Seq<u8>),
    Get(Seq<char>, Option<Seq<u8>>),
}

/// The model of an optional byte string.
pub open spec fn opt_bytes(o: Option<Vec<u8>>) -> Option<Seq<u8>> {
    match o {
        Some(v) => Some(v@),
        None => None,
    }
}

/// The model of an argument read, or of its error.
pub open spec fn arg_result(r: Result<Vec<u8>, CmdErrors>) -> Result<Seq<u8>, CmdErrorModel> {
    match r {
        Ok(v) => Ok(v@),
        Err(e) => Err(e@),
    }
}

/// The model of a parsed command, or of its error.
pub open spec fn cmd_result(r: Result<Command, CmdErrors>) -> Result<CommandModel, CmdErrorModel> {
    match r {
        Ok(c) => Ok(c@),
        Err(e) => Err(e@),
    }
}

/// Argument `i` of a command: the payload of a bulk string.
pub open spec fn arg_spec(
    args: Seq<FrameModel>,
    i: int,
    command_name: Seq<char>,
    arg_name: Seq<char>,
) -> Result<Seq<u8>, CmdErrorModel> {
    if 0 <= i < args.len() {
        match args[i] {
            FrameModel::BulkString(v) => Ok(v),
            other => Err(CmdErrorModel::IncorrectCommandArg(command_name, other)),
        }
    } else {
        Err(CmdErrorModel::MissingCommandArg(command_name, arg_name))
    }
}

/// A key must be UTF-8 text.
pub open spec fn key_text(k: Seq<u8>) -> Result<Seq<char>, CmdErrorModel> {
    if valid_utf8(k) {
        Ok(decode_utf8(k))
    } else {
        Err(CmdErrorModel::KeyNotUtf8)
    }
}

/// ECHO parsed from its arguments, from index `pos` on.
pub open spec fn echo_spec(args: Seq<FrameModel>, pos: int, name: Seq<char>) -> Result<
    CommandModel,
    CmdErrorModel,
> {
    match arg_spec(args, pos, name, MESSAGE_ARG@) {
        Ok(m) => Ok(CommandModel::Echo(m)),
        Err(e) => Err(e),
    }
}

/// SET parsed from its arguments, from index `pos` on.
pub open spec fn set_spec(args: Seq<FrameModel>, pos: int, name: Seq<char>) -> Result<
    CommandModel,
    CmdErrorModel,
> {
    match arg_spec(args, pos, name, KEY_ARG@) {
        Err(e) => Err(e),
        Ok(k) => match arg_spec(args, pos + 1, name, VALUE_ARG@) {
            Err(e) => Err(e),
            Ok(v) => match key_text(k) {
                Ok(t) => Ok(CommandModel::SetCmd(t, v)),
                Err(e) => Err(e),
            },
        },
    }
}

/// GET parsed from its arguments, from index `pos` on; its result is not
/// read yet.
pub open spec fn get_spec(args: Seq<FrameModel>, pos: int, name: Seq<char>) -> Result<
    CommandModel,
    CmdErrorModel,
> {
    match arg_spec(args, pos, name, KEY_ARG@) {
        Err(e) => Err(e),
        Ok(k) => match key_text(k) {
            Ok(t) => Ok(CommandModel::Get(t, None)),
            Err(e) => Err(e),
        },
    }
}

/// The command that a frame asks for: a non-empty array whose first item
/// names the command, case aside, and whose other items are its arguments.
pub open spec fn command_spec(f: FrameModel) -> Result<CommandModel, CmdErrorModel> {
    match f {
        FrameModel::Array(items) => if items.len() == 0 {
            Err(CmdErrorModel::InvalidArrayFrame)
        } else {
            match text_of(items[0]) {
                None => Err(CmdErrorModel::Frame(FrameErrors::StringInterpretationError)),
                Some(name) => {
                    let args = items.subrange(1, items.len() as int);
                    if names_match(name, PING@) {
                        Ok(CommandModel::Ping)
                    } else if names_match(name, ECHO@) {
                        echo_spec(args, 0, ECHO@)
                    } else if names_match(name, SET@) {
                        set_spec(args, 0, SET@)
                    } else if names_match(name, GET@) {
                        get_spec(args, 0, GET@)
                    } else {
                        Err(CmdErrorModel::UnknownCommand(name))
                    }
                },
            }
        },
        _ => Err(CmdErrorModel::InvalidArrayFrame),
    }
}

/// The reply to a command, after it has run.
pub open spec fn response_spec(c: CommandModel) -> FrameModel {
    match c {
        CommandModel::Ping => FrameModel::SimpleString(pong()),
        CommandModel::Echo(m) => FrameModel::BulkString(m),
        CommandModel::SetCmd(_, _) => FrameModel::SimpleString(ok()),
        CommandModel::Get(_, r) => match r {
            Some(v) => FrameModel::BulkString(v),
            None => FrameModel::Null,
        },
    }
}

/// A cursor over a command's arguments.
pub struct CommandArgs<'a> {
    pub frames: &'a [Frame],
    pub pos: usize,
    pub command_name: &'static str,
}

impl<'a> CommandArgs<'a> {
    /// A cursor at the first of `frames`, the arguments of `command_name`.
    pub fn new(frames: &'a [Frame], command_name: &'static str) -> (r: CommandArgs<'a>)
        ensures
            r.frames@ == frames@,
            r.pos == 0,
            r.command_name == command_name,
    {
        CommandArgs { frames, pos: 0, command_name }
    }

    /// The models of all the arguments.
    pub open spec fn args(&self) -> Seq<FrameModel> {
        frames_view(self.frames@)
    }

    /// The payload of the next argument, which must be a bulk string.
    pub fn next_bytes(&mut self, arg_name: &'static str) -> (r: Result<Vec<u8>, CmdErrors>)
        ensures
            final(self).frames@ == old(self).frames@,
            final(self).command_name == old(self).command_name,
            final(self).pos == if old(self).pos < old(self).frames@.len() {
                old(self).pos + 1
            } else {
                old(self).pos as int
            },
            arg_result(r) == arg_spec(
                old(self).args(),
                old(self).pos as int,
                old(self).command_name@,
                arg_name@,
            ),
    {
        let frames = self.frames;
        if self.pos < frames.len() {
            let f = &frames[self.pos];
            self.pos = self.pos + 1;
            match f {
                Frame::BulkString(value) => Ok(slice_to_vec(value.as_slice())),
                wrong_frame => Err(
                    CmdErrors::IncorrectCommandArg {
                        command_name: self.command_name,
                        arg: wrong_frame.duplicate(),
                    },
                ),
            }
        } else {
            Err(CmdErrors::MissingCommandArg { command_name: self.command_name, arg_name })
        }
    }
}

/// PING: no arguments.
pub struct Ping {}

/// ECHO: one byte-string argument, sent back.
pub struct Echo {
    pub message: Vec<u8>,
}

/// SET: stores `value` under `key`.
pub struct SetCmd {
    pub key: String,
    pub value: Vec<u8>,
}

/// GET: reads the value under `key` into `result`.
pub struct Get {
    pub key: String,
    pub result: Option<Vec<u8>>,
}

/// One of the supported commands.
pub enum Command {
    Ping(Ping),
    Echo(Echo),
    SetCmd(SetCmd),
    Get(Get),
}

impl View for Command {
    type V = CommandModel;

    open spec fn view(&self) -> CommandModel {
        match self {
            Command::Ping(_) => CommandModel::Ping,
            Command::Echo(e) => CommandModel::Echo(e.message@),
            Command::SetCmd(s) => CommandModel::SetCmd(s.key@, s.value@),
            Command::Get(g) => CommandModel::Get(g.key@, opt_bytes(g.result)),
        }
    }
}

/// The UTF-8 text of a key.
fn key_from_bytes(key: &Vec<u8>) -> (r: Result<String, CmdErrors>)
    ensures
        match r {
            Ok(s) => key_text(key@) == Ok::<Seq<char>, CmdErrorModel>(s@),
            Err(e) => key_text(key@) == Err::<Seq<char>, CmdErrorModel>(e@),
        },
{
    match utf8_text(key.as_slice()) {
        Some(s) => Ok(s),
        None => Err(CmdErrors::KeyNotUtf8),
    }
}

impl Ping {
    /// PING reads no argument.
    pub fn parse(args: &mut CommandArgs) -> (r: Result<Ping, CmdErrors>)
        ensures
            r is Ok,
            *final(args) == *old(args),
    {
        Ok(Ping {})
    }

    /// `+PONG`
    pub fn to_response(&self) -> (r: Frame)
        ensures
            r@ == FrameModel::SimpleString(pong()),
    {
        let mut v: Vec<u8> = Vec::new();
        v.push(80);
        v.push(79);
        v.push(78);
        v.push(71);
        assert(v@ =~= pong());
        Frame::SimpleString(v)
    }
}

impl Echo {
    /// Reads the message.
    pub fn parse(args: &mut CommandArgs) -> (r: Result<Echo, CmdErrors>)
        ensures
            match r {
                Ok(e) => echo_spec(old(args).args(), old(args).pos as int, old(args).command_name@) == Ok::<CommandModel, CmdErrorModel>(
                    CommandModel::Echo(e.message@),
                ),
                Err(e) => echo_spec(old(args).args(), old(args).pos as int, old(args).command_name@) == Err::<CommandModel, CmdErrorModel>(e@),
            },
    {
        match args.next_bytes(MESSAGE_ARG) {
            Ok(message) => Ok(Echo { message }),
            Err(e) => Err(e),
        }
    }

    /// The message, as a bulk string.
    pub fn to_response(&self) -> (r: Frame)
        ensures
            r@ == FrameModel::BulkString(self.message@),
    {
        Frame::BulkString(slice_to_vec(self.message.as_slice()))
    }
}

impl SetCmd {
    /// Reads the key and the value; the key must be UTF-8.
    pub fn parse(args: &mut CommandArgs) -> (r: Result<SetCmd, CmdErrors>)
        ensures
            match r {
                Ok(s) => set_spec(old(args).args(), old(args).pos as int, old(args).command_name@) == Ok::<CommandModel, CmdErrorModel>(
                    CommandModel::SetCmd(s.key@, s.value@),
                ),
                Err(e) => set_spec(old(args).args(), old(args).pos as int, old(args).command_name@) == Err::<CommandModel, CmdErrorModel>(e@),
            },
    {
        let key = match args.next_bytes(KEY_ARG) {
            Ok(k) => k,
            Err(e) => return Err(e),
        };
        let value = match args.next_bytes(VALUE_ARG) {
            Ok(v) => v,
            Err(e) => return Err(e),
        };
        match key_from_bytes(&key) {
            Ok(key) => Ok(SetCmd { key, value }),
            Err(e) => Err(e),
        }
    }

    /// Stores the value under the key.
    pub fn run(&self, storage: &mut Storage)
        requires
            old(storage).wf(),
        ensures
            final(storage).wf(),
            final(storage)@ == old(storage)@.insert(self.key@, self.value@),
    {
        storage.set(&self.key, &self.value);
    }

    /// `+OK`
    pub fn to_response(&self) -> (r: Frame)
        ensures
            r@ == FrameModel::SimpleString(ok()),
    {
        let mut v: Vec<u8> = Vec::new();
        v.push(79);
        v.push(75);
        assert(v@ =~= ok());
        Frame::SimpleString(v)
    }
}

impl Get {
    /// Reads the key, which must be UTF-8.
    pub fn parse(args: &mut CommandArgs) -> (r: Result<Get, CmdErrors>)
        ensures
            match r {
                Ok(g) => get_spec(old(args).args(), old(args).pos as int, old(args).command_name@) == Ok::<CommandModel, CmdErrorModel>(
                    CommandModel::Get(g.key@, opt_bytes(g.result)),
                ),
                Err(e) => get_spec(old(args).args(), old(args).pos as int, old(args).command_name@) == Err::<CommandModel, CmdErrorModel>(e@),
            },
    {
        let key = match args.next_bytes(KEY_ARG) {
            Ok(k) => k,
            Err(e) => return Err(e),
        };
        match key_from_bytes(&key) {
            Ok(key) => Ok(Get { key, result: None }),
            Err(e) => Err(e),
        }
    }

    /// Reads the value stored under the key into `result`.
    pub fn run(&mut self, storage: &Storage)
        requires
            storage.wf(),
        ensures
            final(self).key == old(self).key,
            opt_bytes(final(self).result) == if storage@.contains_key(old(self).key@) {
                Some(storage@[old(self).key@])
            } else {
                None
            },
    {
        self.result = storage.get(&self.key);
    }

    /// The value as a bulk string, or null when the key was absent.
    pub fn to_response(&self) -> (r: Frame)
        ensures
            r@ == match opt_bytes(self.result) {
                Some(v) => FrameModel::BulkString(v),
                None => FrameModel::Null,
            },
    {
        match &self.result {
            Some(value) => Frame::BulkString(slice_to_vec(value.as_slice())),
            None => Frame::Null,
        }
    }
}

impl Command {
    /// Checks that the frame is a non-empty array and returns its items.
    pub fn validate(frame: &Frame) -> (r: Result<&Vec<Frame>, CmdErrors>)
        ensures
            match r {
                Ok(items) => *frame == Frame::Array(*items) && items@.len() > 0,
                Err(e) => e == CmdErrors::InvalidArrayFrame && !(frame@ is Array
                    && frame@->Array_0.len() > 0),
            },
    {
        match frame {
            Frame::Array(frames) => if frames.len() > 0 {
                Ok(frames)
            } else {
                Err(CmdErrors::InvalidArrayFrame)
            },
            _ => Err(CmdErrors::InvalidArrayFrame),
        }
    }

    /// Parses a frame into the command it names.
    pub fn from_frame(frame: &Frame) -> (r: Result<Command, CmdErrors>)
        ensures
            cmd_result(r) == command_spec(frame@),
    {
        let parts = match Command::validate(frame) {
            Ok(p) => p,
            Err(e) => return Err(e),
        };
        assert(frame@ == FrameModel::Array(frames_view(parts@)));
        assert(frames_view(parts@)[0] == parts@[0]@);
        let name = match parts[0].as_string() {
            Ok(s) => s,
            Err(e) => return Err(CmdErrors::Frame(e)),
        };
        let rest = &parts.as_slice()[1..parts.len()];
        assert(frames_view(rest@) =~= frames_view(parts@).subrange(1, parts@.len() as int));
        if name_is(name.as_str(), PING) {
            let mut args = CommandArgs::new(rest, PING);
            match Ping::parse(&mut args) {
                Ok(p) => Ok(Command::Ping(p)),
                Err(e) => Err(e),
            }
        } else if name_is(name.as_str(), ECHO) {
            let mut args = CommandArgs::new(rest, ECHO);
            match Echo::parse(&mut args) {
                Ok(c) => Ok(Command::Echo(c)),
                Err(e) => Err(e),
            }
        } else if name_is(name.as_str(), SET) {
            let mut args = CommandArgs::new(rest, SET);
            match SetCmd::parse(&mut args) {
                Ok(c) => Ok(Command::SetCmd(c)),
                Err(e) => Err(e),
            }
        } else if name_is(name.as_str(), GET) {
            let mut args = CommandArgs::new(rest, GET);
            match Get::parse(&mut args) {
                Ok(c) => Ok(Command::Get(c)),
                Err(e) => Err(e),
            }
        } else {
            Err(CmdErrors::UnknownCommand(name))
        }
    }

    /// The reply frame for the command in its current state.
    pub fn as_response_frame(&self) -> (r: Frame)
        ensures
            r@ == response_spec(self@),
    {
        match self {
            Command::Ping(ping) => ping.to_response(),
            Command::Echo(echo) => echo.to_response(),
            Command::SetCmd(set) => set.to_response(),
            Command::Get(get) => get.to_response(),
        }
    }
}

} // verus!
