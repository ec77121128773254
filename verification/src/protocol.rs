//! The line protocol on the daemon's Unix socket: a message is one line of
//! text; the daemon answers a request with one line.

use vstd::prelude::*;
use crate::text::{
    all_white_space, first_occurrence, has_substring, is_white_space, lemma_trim_idempotent,
    lemma_trim_padding, occurs_at, text_eq, trim_text, trimmed,
};

verus! {

/// A request the daemon understands.
#[derive(Clone, Copy, Debug, PartialEq, Eq, Structural)]
pub enum Request {
    Ping,
    Status,
    CpuInfo,
    GpuInfo,
    DiskInfo,
    /// Anything else.
    Unknown,
}

/// The request a (trimmed) command names.
pub open spec fn request_named(cmd: Seq<char>) -> Request {
    if cmd == "PING"@ {
        Request::Ping
    } else if cmd == "STATUS"@ {
        Request::Status
    } else if cmd == "CPUINFO"@ {
        Request::CpuInfo
    } else if cmd == "GPUINFO"@ {
        Request::GpuInfo
    } else if cmd == "DISKINFO"@ {
        Request::DiskInfo
    } else {
        Request::Unknown
    }
}

/// The command word of a request; none for an unknown one.
pub open spec fn request_word(r: Request) -> Option<Seq<char>> {
    match r {
        Request::Ping => Some("PING"@),
        Request::Status => Some("STATUS"@),
        Request::CpuInfo => Some("CPUINFO"@),
        Request::GpuInfo => Some("GPUINFO"@),
        Request::DiskInfo => Some("DISKINFO"@),
        Request::Unknown => None,
    }
}

/// The answer the daemon gives without gathering data: "PONG" to a ping,
/// "UNKNOWN" to an unknown command.
pub open spec fn fixed_reply(r: Request) -> Option<Seq<char>> {
    match r {
        Request::Ping => Some("PONG"@),
        Request::Unknown => Some("UNKNOWN"@),
        _ => None,
    }
}

/// A message as it goes on the wire: the text and a newline.
pub open spec fn framed(msg: Seq<char>) -> Seq<char> {
    msg.push('\n')
}

/// What a line reader takes from the wire: everything up to and including
/// the first newline, or all of it when there is none.
pub open spec fn first_line(s: Seq<char>) -> Seq<char> {
    if has_substring(s, seq!['\n']) {
        s.subrange(0, first_occurrence(s, seq!['\n']) + 1)
    } else {
        s
    }
}

/// What a reader makes of a line: the line without surrounding whitespace.
pub open spec fn received(line: Seq<char>) -> Seq<char> {
    trimmed(line)
}

/// The guardian's verdict on the daemon's answer to a ping.
pub open spec fn healthy(reply: Seq<char>) -> bool {
    reply == "PONG"@
}

/// The message logged when a command is not understood.
pub open spec fn unknown_command(cmd: Seq<char>) -> Seq<char> {
    "Error: Unknown command '"@ + cmd + "'"@
}

impl Request {
    /// The request that the command `cmd` names, after trimming it.
    pub fn parse(msg: &str) -> (r: Request)
        ensures
            r == request_named(trimmed(msg@)),
    {
        let cmd = trim_text(msg);
        Request::named(cmd.as_str())
    }

    /// The request that the command `cmd` names exactly.
    pub fn named(cmd: &str) -> (r: Request)
        ensures
            r == request_named(cmd@),
    {
        if text_eq(cmd, "PING") {
            Request::Ping
        } else if text_eq(cmd, "STATUS") {
            Request::Status
        } else if text_eq(cmd, "CPUINFO") {
            Request::CpuInfo
        } else if text_eq(cmd, "GPUINFO") {
            Request::GpuInfo
        } else if text_eq(cmd, "DISKINFO") {
            Request::DiskInfo
        } else {
            Request::Unknown
        }
    }

    /// The command word that asks for this request.
    pub fn word(&self) -> (r: Option<String>)
        ensures
            match r {
                Some(w) => request_word(*self) == Some(w@),
                None => request_word(*self) is None,
            },
    {
        match self {
            Request::Ping => Some("PING".to_owned()),
            Request::Status => Some("STATUS".to_owned()),
            Request::CpuInfo => Some("CPUINFO".to_owned()),
            Request::GpuInfo => Some("GPUINFO".to_owned()),
            Request::DiskInfo => Some("DISKINFO".to_owned()),
            Request::Unknown => None,
        }
    }

    /// The answer to this request when it needs no gathered data.
    pub fn fixed_reply(&self) -> (r: Option<String>)
        ensures
            match r {
                Some(t) => fixed_reply(*self) == Some(t@),
                None => fixed_reply(*self) is None,
            },
    {
        match self {
            Request::Ping => Some("PONG".to_owned()),
            Request::Unknown => Some("UNKNOWN".to_owned()),
            _ => None,
        }
    }
}

/// `msg` as it is written to the socket.
pub fn frame(msg: &str) -> (r: String)
    ensures
        r@ == framed(msg@),
{
    let mut s = msg.to_owned();
    s.append("\n");
    proof {
        reveal_strlit("\n");
    }
    assert(s@ =~= framed(msg@));
    s
}

/// The message carried by a line read from the socket.
pub fn line_message(line: &str) -> (r: String)
    ensures
        r@ == received(line@),
{
    trim_text(line)
}

/// Whether the daemon's answer to a ping shows it alive.
pub fn is_healthy(reply: &str) -> (r: bool)
    ensures
        r == healthy(reply@),
{
    text_eq(reply, "PONG")
}

/// The log message for a command that is not understood.
pub fn unknown_command_message(cmd: &str) -> (r: String)
    ensures
        r@ == unknown_command(cmd@),
{
    let mut s = "Error: Unknown command '".to_owned();
    s.append(cmd);
    s.append("'");
    s
}

/// The requests the guardian sends, in order, to a daemon that is alive.
pub fn guardian_queries() -> (r: Vec<Request>)
    ensures
        r@ == seq![Request::Status, Request::DiskInfo, Request::CpuInfo, Request::GpuInfo],
{
    vec![Request::Status, Request::DiskInfo, Request::CpuInfo, Request::GpuInfo]
}

/// A message without newlines or surrounding whitespace, framed and read
/// back, arrives unchanged.
pub proof fn lemma_frame_read_back(msg: Seq<char>)
    requires
        !msg.contains('\n'),
        trimmed(msg) == msg,
    ensures
        received(first_line(framed(msg))) == msg,
{
    let f = framed(msg);
    let nl = seq!['\n'];
    assert(occurs_at(f, nl, msg.len() as int)) by {
        assert(f.subrange(msg.len() as int, msg.len() + 1int) =~= nl);
    }
    assert forall|j: int| 0 <= j < msg.len() implies !occurs_at(f, nl, j) by {
        if occurs_at(f, nl, j) {
            assert(f.subrange(j, j + 1)[0] == '\n');
            assert(msg[j] == '\n');
        }
    }
    let k = first_occurrence(f, nl);
    assert(k == msg.len()) by {
        if k < msg.len() {
            assert(!occurs_at(f, nl, k));
        }
        if k > msg.len() {
            assert(!occurs_at(f, nl, msg.len() as int));
        }
    }
    assert(f.subrange(0, k + 1) =~= f);
    assert(all_white_space(nl)) by {
        assert(is_white_space('\n'));
    }
    assert(all_white_space(Seq::<char>::empty()));
    lemma_trim_padding(Seq::empty(), msg, nl);
    assert(Seq::<char>::empty() + msg + nl =~= f);
}

/// Every known request's command word, framed and read back by the daemon,
/// names that request again.
pub proof fn lemma_request_round_trip(r: Request)
    requires
        r != Request::Unknown,
    ensures
        request_named(received(first_line(framed(request_word(r)->0)))) == r,
{
    reveal_strlit("PING");
    reveal_strlit("STATUS");
    reveal_strlit("CPUINFO");
    reveal_strlit("GPUINFO");
    reveal_strlit("DISKINFO");
    let w = request_word(r)->0;
    assert(!w.contains('\n'));
    assert(trimmed(w) == w) by {
        assert(!is_white_space(w[0]));
        assert(!is_white_space(w.last()));
        crate::text::lemma_trim_shape(w);
        crate::text::lemma_trim_shape(crate::text::trim_start(w));
    }
    lemma_frame_read_back(w);
}

/// Each command word names its own request, and any other text names
/// none of them.
pub proof fn lemma_request_words(cmd: Seq<char>)
    ensures
        request_named("PING"@) == Request::Ping,
        request_named("STATUS"@) == Request::Status,
        request_named("CPUINFO"@) == Request::CpuInfo,
        request_named("GPUINFO"@) == Request::GpuInfo,
        request_named("DISKINFO"@) == Request::DiskInfo,
        cmd != "PING"@ && cmd != "STATUS"@ && cmd != "CPUINFO"@ && cmd != "GPUINFO"@ && cmd
            != "DISKINFO"@ ==> request_named(cmd) == Request::Unknown,
        request_named(cmd) != Request::Unknown ==> request_word(request_named(cmd)) == Some(cmd),
{
    reveal_strlit("PING");
    reveal_strlit("STATUS");
    reveal_strlit("CPUINFO");
    reveal_strlit("GPUINFO");
    reveal_strlit("DISKINFO");
    assert("STATUS"@.len() != "PING"@.len());
    assert("CPUINFO"@.len() != "PING"@.len() && "CPUINFO"@.len() != "STATUS"@.len());
    assert("GPUINFO"@.len() != "PING"@.len() && "GPUINFO"@.len() != "STATUS"@.len());
    assert("CPUINFO"@[0] != "GPUINFO"@[0]);
    assert("DISKINFO"@.len() != "PING"@.len() && "DISKINFO"@.len() != "STATUS"@.len()
        && "DISKINFO"@.len() != "CPUINFO"@.len() && "DISKINFO"@.len() != "GPUINFO"@.len());
}

/// A guardian's ping, carried to the daemon and answered, reads back as a
/// healthy daemon.
pub proof fn lemma_ping_answered()
    ensures
        request_named(received(first_line(framed("PING"@)))) == Request::Ping,
        healthy(received(first_line(framed(fixed_reply(Request::Ping)->0)))),
{
    lemma_request_round_trip(Request::Ping);
    reveal_strlit("PONG");
    let p = "PONG"@;
    assert(trimmed(p) == p) by {
        assert(!is_white_space(p[0]));
        assert(!is_white_space(p.last()));
        crate::text::lemma_trim_shape(p);
        crate::text::lemma_trim_shape(crate::text::trim_start(p));
    }
    lemma_frame_read_back(p);
}

/// The daemon trims a message that its reader already trimmed; the second
/// trim changes nothing.
pub proof fn lemma_message_trim_stable(line: Seq<char>)
    ensures
        trimmed(received(line)) == received(line),
{
    lemma_trim_idempotent(line);
}

} // verus!
