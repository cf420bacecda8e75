//! Line router: the pure reaction to one decoded inbound line.
//!
//! For every inbound line the caller broadcasts the raw bytes to the
//! subscriber registry; this module decides the rest. A heartbeat probe
//! earns a reply on the outbound queue and re-arms the liveness monitor; the
//! end-of-greeting code earns one join line per configured channel, in
//! configured order; a directed message names a destination for
//! destination-scoped delivery.
//!
//! Destination policy: the destination of a directed message is its first
//! parameter, matched exactly, byte for byte and case-sensitively. Every
//! line — directed or not — goes to the server-wide endpoint; a directed
//! line goes *additionally* to its destination endpoint, whose listener the
//! caller creates on first use and keeps thereafter, whether or not
//! subscribers remain attached to it.

use crate::codec::{
    clone_bytes, encode, encode_spec, Command, CommandV, DecodedLine, MessageV, Prefix,
};
use vstd::prelude::*;
use vstd::string::StrSliceExecFns;
use vstd::string::StringExecFns;

verus! {

/// The bytes of the heartbeat probe command, `PING`.
pub open spec fn ping_bytes() -> Seq<u8> {
    seq![80u8, 73u8, 78u8, 71u8]
}

/// The bytes of the heartbeat reply command, `PONG`.
pub open spec fn pong_bytes() -> Seq<u8> {
    seq![80u8, 79u8, 78u8, 71u8]
}

/// The bytes of the directed-message command, `PRIVMSG`.
pub open spec fn privmsg_bytes() -> Seq<u8> {
    seq![80u8, 82u8, 73u8, 86u8, 77u8, 83u8, 71u8]
}

/// The numeric end-of-greeting code: registration is complete.
pub const GREETING_END: u16 = 376;

/// The line is a heartbeat probe.
pub open spec fn is_ping(c: CommandV) -> bool {
    c == (CommandV::Named { name: ping_bytes() })
}

/// The line completes the server greeting.
pub open spec fn is_greeting_end(c: CommandV) -> bool {
    c == (CommandV::Numeric { code: GREETING_END })
}

/// The heartbeat reply to a probe: the same line with the probe command
/// replaced by the reply command — prefix and parameters kept.
pub open spec fn pong_reply(m: MessageV) -> MessageV {
    MessageV { command: CommandV::Named { name: pong_bytes() }, ..m }
}

/// One join line for a configured channel: `JOIN ` and the channel name.
pub open spec fn join_line(ch: Seq<u8>) -> Seq<u8> {
    seq![74u8, 79u8, 73u8, 78u8, 32u8] + ch
}

/// The destination a directed message names: its first parameter.
pub open spec fn route_destination(m: MessageV) -> Option<Seq<u8>> {
    if m.command == (CommandV::Named { name: privmsg_bytes() }) && m.params.len() >= 1 {
        Some(m.params[0])
    } else {
        None
    }
}

/// Everything one inbound line puts on the outbound queue, in order: the
/// heartbeat reply for a probe, or the join lines at end of greeting.
pub open spec fn router_outbound(m: MessageV, chans: Seq<Seq<u8>>) -> Seq<Seq<u8>> {
    if is_ping(m.command) {
        seq![encode_spec(pong_reply(m))]
    } else if is_greeting_end(m.command) {
        chans.map_values(|ch: Seq<u8>| join_line(ch))
    } else {
        Seq::empty()
    }
}

/// The router's whole reaction to one inbound line.
pub struct RouterOutput {
    /// Lines owed to the outbound queue, in order.
    pub outbound: Vec<Vec<u8>>,
    /// A heartbeat probe was seen: re-arm the liveness monitor.
    pub probe_seen: bool,
    /// The greeting completed: the session may move to established.
    pub greeting_done: bool,
    /// The destination the line is directed to, if any.
    pub destination: Option<Vec<u8>>,
}

/// An exact copy of an optional prefix.
fn clone_prefix(p: &Option<Prefix>) -> (r: Option<Prefix>)
    ensures
        r is Some == p is Some,
        r matches Some(q) ==> p matches Some(pp) && q@ == pp@,
{
    match p {
        Some(Prefix::User(n, u, h)) => Some(
            Prefix::User(clone_bytes(n), clone_bytes(u), clone_bytes(h)),
        ),
        Some(Prefix::Server(s)) => Some(Prefix::Server(clone_bytes(s))),
        None => None,
    }
}

/// An exact copy of a parameter list.
fn clone_params(ps: &Vec<Vec<u8>>) -> (r: Vec<Vec<u8>>)
    ensures
        r@.map_values(|p: Vec<u8>| p@) == ps@.map_values(|p: Vec<u8>| p@),
{
    let mut r: Vec<Vec<u8>> = Vec::new();
    let mut i: usize = 0;
    while i < ps.len()
        invariant
            i <= ps@.len(),
            r@.len() == i,
            forall|j: int| 0 <= j < i ==> #[trigger] r@[j]@ == ps@[j]@,
        decreases ps@.len() - i,
    {
        r.push(clone_bytes(&ps[i]));
        i = i + 1;
    }
    proof {
        assert(r@.map_values(|p: Vec<u8>| p@) =~~= ps@.map_values(|p: Vec<u8>| p@));
    }
    r
}

/// The command is the heartbeat probe.
fn is_ping_cmd(c: &Command) -> (r: bool)
    ensures
        r == is_ping(c@),
{
    match c {
        Command::Named(w) => {
            if w.len() == 4 && w[0] == 80 && w[1] == 73 && w[2] == 78 && w[3] == 71 {
                proof {
                    assert(w@ =~= ping_bytes());
                }
                true
            } else {
                proof {
                    if w@ == ping_bytes() {
                        assert(w@.len() == 4 && w@[0] == 80 && w@[1] == 73 && w@[2] == 78
                            && w@[3] == 71);
                    }
                }
                false
            }
        },
        Command::Numeric(_) => false,
    }
}

/// The command is the directed-message command.
fn is_privmsg_cmd(c: &Command) -> (r: bool)
    ensures
        r == (c@ == (CommandV::Named { name: privmsg_bytes() })),
{
    match c {
        Command::Named(w) => {
            if w.len() == 7 && w[0] == 80 && w[1] == 82 && w[2] == 73 && w[3] == 86 && w[4] == 77
                && w[5] == 83 && w[6] == 71 {
                proof {
                    assert(w@ =~= privmsg_bytes());
                }
                true
            } else {
                proof {
                    if w@ == privmsg_bytes() {
                        assert(w@.len() == 7 && w@[0] == 80 && w@[1] == 82 && w@[2] == 73
                            && w@[3] == 86 && w@[4] == 77 && w@[5] == 83 && w@[6] == 71);
                    }
                }
                false
            }
        },
        Command::Numeric(_) => false,
    }
}

/// React to one decoded inbound line.
///
/// The caller broadcasts the raw line to every subscriber regardless; this
/// returns what else the line demands, exactly: the outbound lines owed (a
/// probe's reply, or the joins at end of greeting, in configured order),
/// whether to re-arm the liveness monitor, whether the greeting completed,
/// and the destination the line is directed to.
pub fn route(m: &DecodedLine, channels: &Vec<Vec<u8>>) -> (out: RouterOutput)
    ensures
        out.outbound@.map_values(|l: Vec<u8>| l@) == router_outbound(
            m@,
            channels@.map_values(|c: Vec<u8>| c@),
        ),
        out.probe_seen == is_ping(m@.command),
        out.greeting_done == is_greeting_end(m@.command),
        match out.destination {
            Some(d) => route_destination(m@) == Some(d@),
            None => route_destination(m@) is None,
        },
{
    let probe_seen = is_ping_cmd(&m.command);
    let greeting_done = matches!(&m.command, Command::Numeric(c) if *c == GREETING_END);
    let mut outbound: Vec<Vec<u8>> = Vec::new();
    if probe_seen {
        let mut pong: Vec<u8> = Vec::new();
        pong.push(80);
        pong.push(79);
        pong.push(78);
        pong.push(71);
        proof {
            assert(pong@ =~= pong_bytes());
        }
        let reply = DecodedLine {
            prefix: clone_prefix(&m.prefix),
            command: Command::Named(pong),
            params: clone_params(&m.params),
        };
        proof {
            assert(reply@ =~~= pong_reply(m@));
        }
        outbound.push(encode(&reply));
        proof {
            assert(outbound@.map_values(|l: Vec<u8>| l@) =~~= router_outbound(
                m@,
                channels@.map_values(|c: Vec<u8>| c@),
            ));
        }
    } else if greeting_done {
        let mut i: usize = 0;
        while i < channels.len()
            invariant
                i <= channels@.len(),
                outbound@.len() == i,
                forall|j: int|
                    0 <= j < i ==> #[trigger] outbound@[j]@ == join_line(channels@[j]@),
            decreases channels@.len() - i,
        {
            let mut line: Vec<u8> = Vec::new();
            line.push(74);
            line.push(79);
            line.push(73);
            line.push(78);
            line.push(32);
            line.extend_from_slice(channels[i].as_slice());
            proof {
                assert(line@ =~= join_line(channels@[i as int]@));
            }
            outbound.push(line);
            i = i + 1;
        }
        proof {
            assert(outbound@.map_values(|l: Vec<u8>| l@) =~~= router_outbound(
                m@,
                channels@.map_values(|c: Vec<u8>| c@),
            ));
        }
    } else {
        proof {
            assert(outbound@.map_values(|l: Vec<u8>| l@) =~~= router_outbound(
                m@,
                channels@.map_values(|c: Vec<u8>| c@),
            ));
        }
    }
    let destination: Option<Vec<u8>> = if is_privmsg_cmd(&m.command) && m.params.len() >= 1 {
        Some(clone_bytes(&m.params[0]))
    } else {
        None
    };
    RouterOutput { outbound, probe_seen, greeting_done, destination }
}

/// A line terminated for the wire: the line and the CR LF pair.
pub fn with_crlf(line: &[u8]) -> (out: Vec<u8>)
    ensures
        out@ == line@ + seq![13u8, 10u8],
{
    let mut out = vstd::slice::slice_to_vec(line);
    out.push(13);
    out.push(10);
    proof {
        assert(out@ =~= line@ + seq![13u8, 10u8]);
    }
    out
}

/// The bytes of a string, for handing text to the byte-level codec.
pub fn str_bytes(s: &str) -> (r: Vec<u8>)
    ensures
        r@ == vstd::utf8::encode_utf8(s@),
{
    s.as_bytes_vec()
}

/// A raw line opens with the heartbeat probe token.
pub open spec fn is_probe_line(s: Seq<char>) -> bool {
    s.len() >= 4 && s[0] == 'P' && s[1] == 'I' && s[2] == 'N' && s[3] == 'G'
}

/// The raw heartbeat reply: the probe token replaced by the reply token,
/// the rest of the line kept as it is.
pub open spec fn pong_of(s: Seq<char>) -> Seq<char> {
    seq!['P', 'O', 'N', 'G'] + s.subrange(4, s.len() as int)
}

/// The raw-text heartbeat answer: for a line opening with the probe token,
/// the same line with the reply token in its place; for any other line,
/// nothing.
pub fn handle_pingpong(line: &str) -> (r: Option<String>)
    ensures
        r is Some <==> is_probe_line(line@),
        r matches Some(p) ==> p@ == pong_of(line@),
{
    let n = line.unicode_len();
    if n >= 4 && line.get_char(0) == 'P' && line.get_char(1) == 'I' && line.get_char(2) == 'N'
        && line.get_char(3) == 'G' {
        let rest = line.substring_char(4, n);
        let mut out = String::from_str("PONG");
        proof {
            reveal_strlit("PONG");
        }
        out.append(rest);
        proof {
            assert(out@ =~= pong_of(line@));
        }
        Some(out)
    } else {
        None
    }
}

} // verus!
