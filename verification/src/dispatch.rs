//! Classification of one line of user input.
//!
//! A line is either a control command — exit, clear, summarize,
//! load, read — or a plain chat turn. Command words may carry one
//! leading slash; a slash-led word that is no known command is an
//! error, while a plain unknown word is an ordinary chat line. The
//! read-eval loop performs the classified action and loops on every
//! outcome but exit.

use vstd::prelude::*;

use crate::ascii::ascii_seq;
use crate::ascii::ascii_bytes;
use crate::ascii::bytes_eq;
use crate::ascii::bytes_start_with;
use crate::ascii::vec_take;
use crate::ascii::vec_skip;

verus! {

pub const SLASH: u8 = 0x2f;

/// Whitespace trimmed from both ends of an input line.
pub open spec fn is_ws(b: u8) -> bool {
    b == 0x20 || b == 0x09 || b == 0x0d || b == 0x0a
}

/// The input with leading whitespace dropped.
pub open spec fn spec_trim_start(s: Seq<u8>) -> Seq<u8>
    decreases s.len(),
{
    if s.len() > 0 && is_ws(s[0]) {
        spec_trim_start(s.skip(1))
    } else {
        s
    }
}

/// The input with trailing whitespace dropped.
pub open spec fn spec_trim_end(s: Seq<u8>) -> Seq<u8>
    decreases s.len(),
{
    if s.len() > 0 && is_ws(s.last()) {
        spec_trim_end(s.drop_last())
    } else {
        s
    }
}

/// The input with whitespace dropped from both ends.
pub open spec fn spec_trim(s: Seq<u8>) -> Seq<u8> {
    spec_trim_end(spec_trim_start(s))
}

/// The mathematical model of a classified input line.
pub enum CommandV {
    Exit,
    Clear,
    Summarize,
    Load(Seq<u8>),
    Read(Seq<u8>),
    Chat(Seq<u8>),
    Empty,
    Unknown(Seq<u8>),
}

/// A classified input line.
pub enum Command {
    Exit,
    Clear,
    Summarize,
    Load(Vec<u8>),
    Read(Vec<u8>),
    Chat(Vec<u8>),
    Empty,
    Unknown(Vec<u8>),
}

impl DeepView for Command {
    type V = CommandV;

    open spec fn deep_view(&self) -> CommandV {
        match self {
            Command::Exit => CommandV::Exit,
            Command::Clear => CommandV::Clear,
            Command::Summarize => CommandV::Summarize,
            Command::Load(a) => CommandV::Load(a@),
            Command::Read(a) => CommandV::Read(a@),
            Command::Chat(a) => CommandV::Chat(a@),
            Command::Empty => CommandV::Empty,
            Command::Unknown(a) => CommandV::Unknown(a@),
        }
    }
}

/// How one input line is classified. The line is trimmed; an empty
/// line does nothing; command words match with or without one
/// leading slash; `load` and `read` need a non-blank argument and
/// are errors without one; a slash-led word that matches no command
/// is an error; anything else is a chat turn, sent as trimmed.
pub open spec fn spec_parse_command(l: Seq<u8>) -> CommandV {
    let t = spec_trim(l);
    let slash = t.len() >= 1 && t[0] == SLASH;
    let body = if slash {
        t.skip(1)
    } else {
        t
    };
    if t.len() == 0 {
        CommandV::Empty
    } else if body == ascii_seq("exit"@) || body == ascii_seq("quit"@) {
        CommandV::Exit
    } else if body == ascii_seq("clear"@) {
        CommandV::Clear
    } else if body == ascii_seq("summarize"@) {
        CommandV::Summarize
    } else if ascii_seq("load "@).is_prefix_of(body) {
        let a = spec_trim(body.skip(5));
        if a.len() > 0 {
            CommandV::Load(a)
        } else {
            CommandV::Unknown(body)
        }
    } else if ascii_seq("read "@).is_prefix_of(body) {
        let a = spec_trim(body.skip(5));
        if a.len() > 0 {
            CommandV::Read(a)
        } else {
            CommandV::Unknown(body)
        }
    } else if body == ascii_seq("load"@) || body == ascii_seq("read"@) {
        CommandV::Unknown(body)
    } else if slash {
        CommandV::Unknown(body)
    } else {
        CommandV::Chat(t)
    }
}

/// Whether a byte is trimmed whitespace.
pub fn is_ws_byte(b: u8) -> (r: bool)
    ensures
        r == is_ws(b),
{
    b == 0x20 || b == 0x09 || b == 0x0d || b == 0x0a
}

/// Drops whitespace from both ends of an input line.
pub fn trim_bytes(v: &Vec<u8>) -> (r: Vec<u8>)
    ensures
        r@ == spec_trim(v@),
{
    let mut start: usize = 0;
    proof {
        assert(v@.skip(0) =~= v@);
    }
    while start < v.len() && is_ws_byte(v[start])
        invariant
            0 <= start <= v@.len(),
            spec_trim_start(v@) == spec_trim_start(v@.skip(start as int)),
        decreases v@.len() - start,
    {
        proof {
            assert(v@.skip(start as int)[0] == v@[start as int]);
            assert(v@.skip(start as int).skip(1) =~= v@.skip(start + 1 as int));
        }
        start += 1;
    }
    proof {
        if start < v@.len() {
            assert(v@.skip(start as int)[0] == v@[start as int]);
        } else {
            assert(v@.skip(start as int).len() == 0);
        }
        assert(spec_trim_start(v@) == v@.skip(start as int));
    }
    let mut end: usize = v.len();
    proof {
        assert(v@.skip(start as int).take(v@.len() - start) =~= v@.skip(start as int));
    }
    while end > start && is_ws_byte(v[end - 1])
        invariant
            start <= end <= v@.len(),
            spec_trim_start(v@) == v@.skip(start as int),
            spec_trim_end(v@.skip(start as int)) == spec_trim_end(
                v@.skip(start as int).take(end - start),
            ),
        decreases end,
    {
        proof {
            let cur = v@.skip(start as int).take(end - start);
            assert(cur.last() == v@[end - 1]);
            assert(cur.drop_last() =~= v@.skip(start as int).take(end - 1 - start));
        }
        end -= 1;
    }
    proof {
        let cur = v@.skip(start as int).take(end - start);
        if end > start {
            assert(cur.last() == v@[end - 1]);
        }
        assert(spec_trim_end(cur) == cur);
    }
    let r = vec_skip(&vec_take(v, end), start);
    proof {
        assert(r@ =~= v@.skip(start as int).take(end - start));
    }
    r
}

/// Classifies one line of user input.
pub fn parse_command(line: &Vec<u8>) -> (r: Command)
    ensures
        r.deep_view() == spec_parse_command(line@),
{
    proof {
        reveal_strlit("exit");
        reveal_strlit("quit");
        reveal_strlit("clear");
        reveal_strlit("summarize");
        reveal_strlit("load ");
        reveal_strlit("read ");
        reveal_strlit("load");
        reveal_strlit("read");
    }
    let t = trim_bytes(line);
    if t.len() == 0 {
        return Command::Empty;
    }
    let slash = t[0] == SLASH;
    let body = if slash {
        vec_skip(&t, 1)
    } else {
        crate::ascii::clone_bytes(&t)
    };
    if bytes_eq(&body, &ascii_bytes("exit")) || bytes_eq(&body, &ascii_bytes("quit")) {
        return Command::Exit;
    }
    if bytes_eq(&body, &ascii_bytes("clear")) {
        return Command::Clear;
    }
    if bytes_eq(&body, &ascii_bytes("summarize")) {
        return Command::Summarize;
    }
    if bytes_start_with(&body, &ascii_bytes("load ")) {
        let a = trim_bytes(&vec_skip(&body, 5));
        if a.len() > 0 {
            return Command::Load(a);
        } else {
            return Command::Unknown(body);
        }
    }
    if bytes_start_with(&body, &ascii_bytes("read ")) {
        let a = trim_bytes(&vec_skip(&body, 5));
        if a.len() > 0 {
            return Command::Read(a);
        } else {
            return Command::Unknown(body);
        }
    }
    if bytes_eq(&body, &ascii_bytes("load")) || bytes_eq(&body, &ascii_bytes("read")) {
        return Command::Unknown(body);
    }
    if slash {
        return Command::Unknown(body);
    }
    Command::Chat(t)
}

} // verus!
