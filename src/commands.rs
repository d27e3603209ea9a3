//! Commands built from request frames, and their execution against the cache.

use crate::cache::{set_effect, Cache, CacheView};
use crate::frame::{RequestFrame, RequestFrameView, ResponseFrame};
use crate::get::{get_response, Get};
use crate::parse::{get_keys, next_token, set_fields, utf8_string, Parse, ParseError};
use crate::set::SetCommand;
use vstd::prelude::*;
use vstd::utf8::valid_utf8;

verus! {

/// Why a frame does not make a command.
#[derive(Debug, PartialEq, Eq, Structural)]
pub enum CommandError {
    /// The command line does not tokenize as the command needs.
    Parse(ParseError),
    /// The command name is not one this server runs.
    Unknown,
}

/// A request ready to run.
#[derive(Debug)]
pub enum Command {
    Get(Get),
    Store(SetCommand),
}

/// The contents of a command.
pub enum CommandView {
    Get(Seq<Seq<char>>),
    Store { key: Seq<char>, flags: u32, cas: u64, expiration: Option<u32>, data: Seq<u8> },
}

impl View for Command {
    type V = CommandView;

    open spec fn view(&self) -> CommandView {
        match self {
            Command::Get(g) => CommandView::Get(g@),
            Command::Store(s) => CommandView::Store {
                key: s.key@,
                flags: s.flags,
                cas: s.cas,
                expiration: s.expiration,
                data: s.data@,
            },
        }
    }
}

/// The bytes of the name `get`.
pub open spec fn get_word() -> Seq<u8> {
    seq![103u8, 101u8, 116u8]
}

/// The bytes of the name `set`.
pub open spec fn set_word() -> Seq<u8> {
    seq![115u8, 101u8, 116u8]
}

/// The command that a frame makes. The first token names it: `get` on a
/// one-line frame, `set` on a two-line frame; a stored value starts at version 0. Any other name is unknown if it
/// is valid UTF-8. A `set` line must be consumed by its four fields.
pub open spec fn command_of(f: RequestFrameView) -> Result<CommandView, CommandError> {
    match f {
        RequestFrameView::Other(line) => match next_token(line, 0) {
            None => Err(CommandError::Parse(ParseError::EndOfLine)),
            Some((name, p)) => if name == get_word() {
                match get_keys(line, p) {
                    Ok(keys) => Ok(CommandView::Get(keys)),
                    Err(e) => Err(CommandError::Parse(e)),
                }
            } else if valid_utf8(name) {
                Err(CommandError::Unknown)
            } else {
                Err(CommandError::Parse(ParseError::String))
            },
        },
        RequestFrameView::Storage { command_line, data } => match next_token(command_line, 0) {
            None => Err(CommandError::Parse(ParseError::EndOfLine)),
            Some((name, p)) => if name == set_word() {
                match set_fields(command_line, p) {
                    Ok((key, flags, expiration, end)) => if end > command_line.len() {
                        Ok(CommandView::Store { key, flags, cas: 0, expiration: Some(expiration), data })
                    } else {
                        Err(CommandError::Parse(ParseError::LineTooLong))
                    },
                    Err(e) => Err(CommandError::Parse(e)),
                }
            } else if valid_utf8(name) {
                Err(CommandError::Unknown)
            } else {
                Err(CommandError::Parse(ParseError::String))
            },
        },
    }
}

/// What running a command does: a retrieval leaves the cache as it was and
/// answers with the values found; a storage sets the key, leaves every other
/// key's item as it was, and answers `STORED`.
pub open spec fn applied(v: CommandView, c0: CacheView, c1: CacheView, out0: Seq<u8>, out1: Seq<u8>) -> bool {
    match v {
        CommandView::Get(keys) => c1 == c0 && out1 == out0 + get_response(keys, c0),
        CommandView::Store { key, flags, cas, expiration, data } => {
            &&& set_effect(c0, c1, key, flags, expiration, data, !c0.index.contains_key(key))
            &&& c1.wf()
            &&& forall|k: Seq<char>| k != key ==> #[trigger] c1.lookup(k) == c0.lookup(k)
            &&& out1 == out0 + ResponseFrame::Stored.bytes()
        },
    }
}

/// The lines of a frame fit the cursor that tokenizes them.
pub open spec fn frame_fits(f: RequestFrameView) -> bool {
    match f {
        RequestFrameView::Other(line) => line.len() < usize::MAX,
        RequestFrameView::Storage { command_line, data } => command_line.len() < usize::MAX,
    }
}

/// Whether `name` is the word `w`.
fn is_word(name: &Vec<u8>, w: &[u8]) -> (r: bool)
    ensures
        r == (name@ == w@),
{
    if name.len() != w.len() {
        return false;
    }
    let mut i: usize = 0;
    while i < name.len()
        invariant
            name@.len() == w@.len(),
            i <= name@.len(),
            forall|j: int| 0 <= j < i ==> name@[j] == w@[j],
        decreases name@.len() - i,
    {
        if name[i] != w[i] {
            return false;
        }
        i += 1;
    }
    assert(name@ =~= w@);
    true
}

/// The error for a command name other than the expected one.
fn unknown_name(name: Vec<u8>) -> (e: CommandError)
    ensures
        valid_utf8(name@) ==> e == CommandError::Unknown,
        !valid_utf8(name@) ==> e == CommandError::Parse(ParseError::String),
{
    match utf8_string(name) {
        Some(_) => CommandError::Unknown,
        None => CommandError::Parse(ParseError::String),
    }
}

impl Command {
    /// Builds the command that `frame` makes.
    pub fn from_frame(frame: RequestFrame) -> (r: Result<Command, CommandError>)
        requires
            frame_fits(frame@),
        ensures
            match command_of(frame@) {
                Ok(c) => r matches Ok(cmd) && cmd@ == c,
                Err(e) => r == Err::<Command, CommandError>(e),
            },
    {
        match frame {
            RequestFrame::Other(line) => {
                let mut parse = Parse::new(line);
                let name = match parse.next_bytes() {
                    Ok(name) => name,
                    Err(e) => return Err(CommandError::Parse(e)),
                };
                if !is_word(&name, &[103u8, 101u8, 116u8]) {
                    return Err(unknown_name(name));
                }
                let c = match Get::parse_frame(&mut parse) {
                    Ok(g) => Command::Get(g),
                    Err(e) => return Err(CommandError::Parse(e)),
                };
                match parse.finish() {
                    Ok(()) => Ok(c),
                    Err(e) => Err(CommandError::Parse(e)),
                }
            },
            RequestFrame::Storage(frame) => {
                let mut parse = Parse::new(frame.command_line);
                let name = match parse.next_bytes() {
                    Ok(name) => name,
                    Err(e) => return Err(CommandError::Parse(e)),
                };
                if !is_word(&name, &[115u8, 101u8, 116u8]) {
                    return Err(unknown_name(name));
                }
                let c = match SetCommand::parse_frame(&mut parse, frame.data) {
                    Ok(s) => Command::Store(s),
                    Err(e) => return Err(CommandError::Parse(e)),
                };
                match parse.finish() {
                    Ok(()) => Ok(c),
                    Err(e) => Err(CommandError::Parse(e)),
                }
            },
        }
    }

    /// Runs the command against `cache` and appends its response to `out`.
    pub fn apply(self, cache: &mut Cache, out: &mut Vec<u8>)
        requires
            old(cache).wf(),
        ensures
            final(cache).wf(),
            final(cache)@.wf(),
            applied(self@, old(cache)@, final(cache)@, old(out)@, final(out)@),
    {
        proof {
            cache.lemma_view_wf();
        }
        match self {
            Command::Get(cmd) => cmd.apply(cache, out),
            Command::Store(cmd) => cmd.apply(cache, out),
        }
    }

    /// The command's name.
    pub fn get_name(&self) -> (r: &'static str)
        ensures
            self is Get ==> r@ == "get"@,
            self is Store ==> r@ == "set"@,
    {
        match self {
            Command::Get(_) => "get",
            Command::Store(_) => "set",
        }
    }
}

/// Builds the command that `frame` makes and runs it against `cache`,
/// appending its response to `out`. A frame that makes no command leaves both
/// as they were.
pub fn execute(frame: RequestFrame, cache: &mut Cache, out: &mut Vec<u8>) -> (r: Result<(), CommandError>)
    requires
        old(cache).wf(),
        frame_fits(frame@),
    ensures
        final(cache).wf(),
        final(cache)@.wf(),
        match command_of(frame@) {
            Ok(c) => r is Ok && applied(c, old(cache)@, final(cache)@, old(out)@, final(out)@),
            Err(e) => r == Err::<(), CommandError>(e) && final(cache)@ == old(cache)@ && final(out)@ == old(out)@,
        },
{
    proof {
        cache.lemma_view_wf();
    }
    let command = Command::from_frame(frame)?;
    command.apply(cache, out);
    Ok(())
}

} // verus!
