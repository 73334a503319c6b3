//! One request, start to finish: bytes in, frame, command, store, bytes out.
use vstd::prelude::*;

use crate::command::{
    command_spec, names_match, response_spec, Command, CommandModel, ECHO, GET, PING, SET,
};
use crate::errors::{CmdErrorModel, CmdErrors, FrameErrors};
use crate::frame::{decode_spec, encode_spec, text_of, Frame, FrameModel};
use crate::storage::Storage;

verus! {

/// Why a request got no reply. Either ends the connection.
#[derive(Debug, PartialEq)]
pub enum RequestError {
    /// The bytes are not a well-formed frame.
    Frame(FrameErrors),
    /// The frame is not a valid command.
    Command(CmdErrors),
}

/// A command after it has run against a store holding `m`.
pub open spec fn executed_spec(c: CommandModel, m: Map<Seq<char>, Seq<u8>>) -> CommandModel {
    match c {
        CommandModel::Get(k, _) => CommandModel::Get(
            k,
            if m.contains_key(k) {
                Some(m[k])
            } else {
                None
            },
        ),
        _ => c,
    }
}

/// The store after the command has run against `m`.
pub open spec fn store_after(c: CommandModel, m: Map<Seq<char>, Seq<u8>>) -> Map<Seq<char>, Seq<u8>> {
    match c {
        CommandModel::SetCmd(k, v) => m.insert(k, v),
        _ => m,
    }
}

/// Runs a command against the store: GET reads, SET writes, the others
/// do nothing.
pub fn execute(cmd: &mut Command, storage: &mut Storage)
    requires
        old(storage).wf(),
    ensures
        final(storage).wf(),
        final(cmd)@ == executed_spec(old(cmd)@, old(storage)@),
        final(storage)@ == store_after(old(cmd)@, old(storage)@),
{
    match cmd {
        Command::Get(get) => get.run(storage),
        Command::SetCmd(set) => set.run(storage),
        _ => {},
    }
}

/// Answers one request held in `buffer`: decodes it, parses the command,
/// runs it and encodes the reply. Any error means no reply.
pub fn handle_request(buffer: &[u8], storage: &mut Storage) -> (r: Result<Vec<u8>, RequestError>)
    requires
        old(storage).wf(),
    ensures
        final(storage).wf(),
        match decode_spec(buffer@) {
            Err(e) => r == Err::<Vec<u8>, RequestError>(RequestError::Frame(e)) && final(storage)@
                == old(storage)@,
            Ok(f) => match command_spec(f) {
                Err(ce) => (r matches Err(RequestError::Command(x)) && x@ == ce) && final(storage)@
                    == old(storage)@,
                Ok(c) => (r matches Ok(bytes) && bytes@ == encode_spec(
                    response_spec(executed_spec(c, old(storage)@)),
                )) && final(storage)@ == store_after(c, old(storage)@),
            },
        },
{
    let frame = match Frame::from_bytes(buffer) {
        Ok(f) => f,
        Err(e) => return Err(RequestError::Frame(e)),
    };
    let mut cmd = match Command::from_frame(&frame) {
        Ok(c) => c,
        Err(e) => return Err(RequestError::Command(e)),
    };
    execute(&mut cmd, storage);
    let response_frame = cmd.as_response_frame();
    Ok(response_frame.as_resp_bytes())
}

/// A frame whose command name matches none of the known commands is
/// refused with the unknown-command error, so the request gets no reply.
pub proof fn lemma_unknown_command(f: FrameModel, name: Seq<char>)
    requires
        f is Array,
        f->Array_0.len() > 0,
        text_of(f->Array_0[0]) == Some(name),
        !names_match(name, PING@),
        !names_match(name, ECHO@),
        !names_match(name, SET@),
        !names_match(name, GET@),
    ensures
        command_spec(f) == Err::<CommandModel, CmdErrorModel>(CmdErrorModel::UnknownCommand(name)),
{
}

} // verus!
