//! Wire-format line codec.
//!
//! A wire line is a sequence of bytes: an optional prefix introduced by a
//! leading `:` and terminated by the first space, then a command token (an
//! alphabetic name, or exactly three decimal digits read as a numeric code),
//! then space-separated parameters. The final parameter may be introduced by
//! `:`, in which case it runs to the end of the line and may contain spaces.

use vstd::prelude::*;

verus! {

/// The space separator byte.
pub const SP: u8 = 32;

/// The prefix / trailing-parameter marker byte, `:`.
pub const COLON: u8 = 58;

/// The nick/user separator inside a user prefix, `!`.
pub const BANG: u8 = 33;

/// The user/host separator inside a user prefix, `@`.
pub const AT: u8 = 64;

/// The message prefix: who a line comes from.
#[derive(Clone, Debug, PartialEq, Eq)]
pub enum Prefix {
    /// A user origin: nick, user, host.
    User(Vec<u8>, Vec<u8>, Vec<u8>),
    /// A server origin: server name.
    Server(Vec<u8>),
}

/// The command of a line: a name made of letters, or a three-digit code.
#[derive(Clone, Debug, PartialEq, Eq)]
pub enum Command {
    Named(Vec<u8>),
    Numeric(u16),
}

/// One decoded wire line: optional prefix, command, ordered parameters.
#[derive(Clone, Debug, PartialEq, Eq)]
pub struct DecodedLine {
    pub prefix: Option<Prefix>,
    pub command: Command,
    pub params: Vec<Vec<u8>>,
}

/// Why a line failed to decode.
#[derive(Clone, Copy, Debug, PartialEq, Eq, Structural)]
pub enum ParseError {
    /// The line has no bytes at all.
    EmptyLine,
    /// The line starts a prefix but no space ever ends it.
    UnterminatedPrefix,
    /// The prefix marker is followed directly by its terminating space.
    EmptyPrefix,
    /// The command token is absent, or neither alphabetic nor three digits.
    BadCommand,
}

/// Mathematical image of [`Prefix`].
#[verifier::ext_equal]
pub enum PrefixV {
    User { nick: Seq<u8>, user: Seq<u8>, host: Seq<u8> },
    Server { name: Seq<u8> },
}

/// Mathematical image of [`Command`].
#[verifier::ext_equal]
pub enum CommandV {
    Named { name: Seq<u8> },
    Numeric { code: u16 },
}

/// Mathematical image of [`DecodedLine`].
#[verifier::ext_equal]
pub struct MessageV {
    pub prefix: Option<PrefixV>,
    pub command: CommandV,
    pub params: Seq<Seq<u8>>,
}

impl View for Prefix {
    type V = PrefixV;

    open spec fn view(&self) -> PrefixV {
        match self {
            Prefix::User(n, u, h) => PrefixV::User { nick: n@, user: u@, host: h@ },
            Prefix::Server(s) => PrefixV::Server { name: s@ },
        }
    }
}

impl View for Command {
    type V = CommandV;

    open spec fn view(&self) -> CommandV {
        match self {
            Command::Named(w) => CommandV::Named { name: w@ },
            Command::Numeric(c) => CommandV::Numeric { code: *c },
        }
    }
}

impl View for DecodedLine {
    type V = MessageV;

    open spec fn view(&self) -> MessageV {
        MessageV {
            prefix: match &self.prefix {
                Some(p) => Some(p@),
                None => None,
            },
            command: self.command@,
            params: self.params@.map_values(|p: Vec<u8>| p@),
        }
    }
}

/// Index of the first occurrence of `b` in `s`, or `s.len()` if absent.
pub open spec fn find_byte(s: Seq<u8>, b: u8) -> int
    decreases s.len(),
{
    if s.len() == 0 {
        0
    } else if s[0] == b {
        0
    } else {
        1 + find_byte(s.drop_first(), b)
    }
}

/// `find_byte` returns the least index of `b`, or the length when `b` is absent.
pub proof fn lemma_find_byte(s: Seq<u8>, b: u8)
    ensures
        0 <= find_byte(s, b) <= s.len(),
        forall|i: int| 0 <= i < find_byte(s, b) ==> s[i] != b,
        find_byte(s, b) < s.len() ==> s[find_byte(s, b)] == b,
    decreases s.len(),
{
    if s.len() > 0 && s[0] != b {
        lemma_find_byte(s.drop_first(), b);
        assert forall|i: int| 0 <= i < find_byte(s, b) implies s[i] != b by {
            if i > 0 {
                assert(s.drop_first()[i - 1] != b);
            }
        }
        if find_byte(s, b) < s.len() {
            assert(s[find_byte(s, b)] == s.drop_first()[find_byte(s.drop_first(), b)]) by {
                assert(find_byte(s, b) == 1 + find_byte(s.drop_first(), b));
            }
        }
    }
}

/// Any index below the least occurrence and holding `b` is impossible; the
/// least occurrence is determined by its two properties.
pub proof fn lemma_find_byte_unique(s: Seq<u8>, b: u8, i: int)
    requires
        0 <= i <= s.len(),
        forall|j: int| 0 <= j < i ==> s[j] != b,
        i < s.len() ==> s[i] == b,
    ensures
        find_byte(s, b) == i,
{
    lemma_find_byte(s, b);
    let f = find_byte(s, b);
    if f < i {
        assert(s[f] != b);
    }
    if i < f {
        assert(s[i] != b);
    }
}

/// `b` occurs nowhere in `s`.
pub open spec fn no_byte(s: Seq<u8>, b: u8) -> bool {
    forall|i: int| 0 <= i < s.len() ==> s[i] != b
}

/// `s` holds no space byte.
pub open spec fn no_space(s: Seq<u8>) -> bool {
    no_byte(s, SP)
}

/// `b` is an ASCII letter.
pub open spec fn is_alpha(b: u8) -> bool {
    (65 <= b <= 90) || (97 <= b <= 122)
}

/// `b` is an ASCII decimal digit.
pub open spec fn is_digit(b: u8) -> bool {
    48 <= b <= 57
}

/// Every byte of `s` is an ASCII letter.
pub open spec fn all_alpha(s: Seq<u8>) -> bool {
    forall|i: int| 0 <= i < s.len() ==> is_alpha(#[trigger] s[i])
}

/// Every byte of `s` is an ASCII decimal digit.
pub open spec fn all_digits(s: Seq<u8>) -> bool {
    forall|i: int| 0 <= i < s.len() ==> is_digit(#[trigger] s[i])
}

/// A prefix body reads as `nick!user@host`: it holds a `!`, and an `@`
/// somewhere after the first `!`.
pub open spec fn user_shaped(pt: Seq<u8>) -> bool {
    let e = find_byte(pt, BANG);
    e < pt.len() && find_byte(pt.subrange(e + 1, pt.len() as int), AT) < pt.len() - e - 1
}

/// Split a prefix body (the text between the leading `:` and the first
/// space) into its structured form. A body holding `nick!user@host` is a
/// user prefix; anything else names a server.
pub open spec fn parse_prefix_spec(pt: Seq<u8>) -> PrefixV {
    if user_shaped(pt) {
        let e = find_byte(pt, BANG);
        let rest = pt.subrange(e + 1, pt.len() as int);
        let a = find_byte(rest, AT);
        PrefixV::User {
            nick: pt.subrange(0, e),
            user: rest.subrange(0, a),
            host: rest.subrange(a + 1, rest.len() as int),
        }
    } else {
        PrefixV::Server { name: pt }
    }
}

/// The numeric code spelled by three decimal digit bytes.
pub open spec fn numeric_value(s: Seq<u8>) -> u16 {
    (100 * (s[0] - 48) + 10 * (s[1] - 48) + (s[2] - 48)) as u16
}

/// Read a command token: a nonempty alphabetic name, or exactly three
/// decimal digits giving a numeric code.
pub open spec fn parse_command_spec(ct: Seq<u8>) -> Option<CommandV> {
    if ct.len() > 0 && all_alpha(ct) {
        Some(CommandV::Named { name: ct })
    } else if ct.len() == 3 && all_digits(ct) {
        Some(CommandV::Numeric { code: numeric_value(ct) })
    } else {
        None
    }
}

/// Split the text after the command into parameters: space-separated
/// tokens, except that a token introduced by `:` is the final parameter and
/// runs to the end of the line.
pub open spec fn parse_params_spec(t: Seq<u8>) -> Seq<Seq<u8>>
    decreases t.len(),
{
    if t.len() > 0 && t[0] == COLON {
        seq![t.subrange(1, t.len() as int)]
    } else {
        let p = find_byte(t, SP);
        if 0 <= p < t.len() {
            seq![t.subrange(0, p)] + parse_params_spec(t.subrange(p + 1, t.len() as int))
        } else {
            seq![t]
        }
    }
}

/// Decode the command-and-parameters part of a line, `pfx` already taken.
pub open spec fn decode_rest_spec(pfx: Option<PrefixV>, rest: Seq<u8>) -> Result<
    MessageV,
    ParseError,
> {
    let c = find_byte(rest, SP);
    match parse_command_spec(rest.subrange(0, c)) {
        Option::None => Err(ParseError::BadCommand),
        Option::Some(cmd) => Ok(
            MessageV {
                prefix: pfx,
                command: cmd,
                params: if c == rest.len() {
                    Seq::empty()
                } else {
                    parse_params_spec(rest.subrange(c + 1, rest.len() as int))
                },
            },
        ),
    }
}

/// Decode one whole wire line.
pub open spec fn decode_spec(s: Seq<u8>) -> Result<MessageV, ParseError> {
    if s.len() == 0 {
        Err(ParseError::EmptyLine)
    } else if s[0] == COLON {
        let p = find_byte(s, SP);
        if p == s.len() {
            Err(ParseError::UnterminatedPrefix)
        } else if p == 1 {
            Err(ParseError::EmptyPrefix)
        } else {
            decode_rest_spec(
                Some(parse_prefix_spec(s.subrange(1, p))),
                s.subrange(p + 1, s.len() as int),
            )
        }
    } else {
        decode_rest_spec(None, s)
    }
}

/// The prefix a decoder can reconstruct: separators occur only where the
/// encoder put them, and no field smuggles in a space.
pub open spec fn wf_prefix(p: PrefixV) -> bool {
    match p {
        PrefixV::User { nick, user, host } => no_space(nick) && no_space(user) && no_space(host)
            && no_byte(nick, BANG) && no_byte(user, AT),
        PrefixV::Server { name } => name.len() > 0 && no_space(name) && !user_shaped(name),
    }
}

/// A command the wire format can carry.
pub open spec fn wf_command(c: CommandV) -> bool {
    match c {
        CommandV::Named { name } => name.len() > 0 && all_alpha(name),
        CommandV::Numeric { code } => code <= 999,
    }
}

/// Parameters the wire format can carry: every parameter but the last is
/// space-free and does not open with the trailing marker. The last
/// parameter is unconstrained.
pub open spec fn wf_params(ps: Seq<Seq<u8>>) -> bool {
    forall|i: int|
        0 <= i < ps.len() - 1 ==> no_space(#[trigger] ps[i]) && (ps[i].len() == 0 || ps[i][0]
            != COLON)
}

/// A structured message that encodes to a line decoding back to itself.
pub open spec fn wf_msg(m: MessageV) -> bool {
    &&& match m.prefix {
        Some(p) => wf_prefix(p),
        None => true,
    }
    &&& wf_command(m.command)
    &&& wf_params(m.params)
}

/// The prefix body: what stands between the leading `:` and the first space.
pub open spec fn prefix_body(p: PrefixV) -> Seq<u8> {
    match p {
        PrefixV::User { nick, user, host } => nick + seq![BANG] + user + seq![AT] + host,
        PrefixV::Server { name } => name,
    }
}

/// Wire bytes of a prefix, terminating space included.
pub open spec fn prefix_bytes(p: PrefixV) -> Seq<u8> {
    seq![COLON] + prefix_body(p) + seq![SP]
}

/// The three zero-padded decimal digit bytes of `code`.
pub open spec fn digit_bytes(code: u16) -> Seq<u8> {
    seq![(48 + code / 100) as u8, (48 + (code / 10) % 10) as u8, (48 + code % 10) as u8]
}

/// Wire bytes of a command token.
pub open spec fn command_bytes(c: CommandV) -> Seq<u8> {
    match c {
        CommandV::Named { name } => name,
        CommandV::Numeric { code } => digit_bytes(code),
    }
}

/// Wire bytes of the parameters from index `i` on, each with its leading
/// space; the last parameter always carries the trailing marker.
pub open spec fn params_bytes_from(ps: Seq<Seq<u8>>, i: int) -> Seq<u8>
    decreases ps.len() - i,
{
    if i < 0 || i >= ps.len() {
        Seq::empty()
    } else if i == ps.len() - 1 {
        seq![SP, COLON] + ps[i]
    } else {
        seq![SP] + ps[i] + params_bytes_from(ps, i + 1)
    }
}

/// Wire bytes of one whole message.
pub open spec fn encode_spec(m: MessageV) -> Seq<u8> {
    (match m.prefix {
        Some(p) => prefix_bytes(p),
        None => Seq::empty(),
    }) + command_bytes(m.command) + params_bytes_from(m.params, 0)
}

/// `find_byte` lands exactly between a `b`-free part and a part opening
/// with `b`.
pub proof fn lemma_find_concat_hit(a: Seq<u8>, c: Seq<u8>, b: u8)
    requires
        no_byte(a, b),
        c.len() > 0,
        c[0] == b,
    ensures
        find_byte(a + c, b) == a.len(),
{
    lemma_find_byte_unique(a + c, b, a.len() as int);
}

/// In a `b`-free sequence, `find_byte` reaches the end.
pub proof fn lemma_find_absent(s: Seq<u8>, b: u8)
    requires
        no_byte(s, b),
    ensures
        find_byte(s, b) == s.len(),
{
    lemma_find_byte_unique(s, b, s.len() as int);
}

/// Exec counterpart of [`find_byte`].
pub fn scan_byte(s: &[u8], b: u8) -> (r: usize)
    ensures
        r as int == find_byte(s@, b),
{
    let mut i: usize = 0;
    while i < s.len()
        invariant
            0 <= i <= s@.len(),
            forall|j: int| 0 <= j < i ==> s@[j] != b,
        decreases s@.len() - i,
    {
        if s[i] == b {
            proof {
                lemma_find_byte_unique(s@, b, i as int);
            }
            return i;
        }
        i = i + 1;
    }
    proof {
        lemma_find_byte_unique(s@, b, s@.len() as int);
    }
    i
}

/// A parsed prefix body is always well formed: its fields inherit
/// space-freedom from the body, and the separators found were the first of
/// their kind.
pub proof fn lemma_prefix_parse_wf(pt: Seq<u8>)
    requires
        pt.len() > 0,
        no_space(pt),
    ensures
        wf_prefix(parse_prefix_spec(pt)),
{
    lemma_find_byte(pt, BANG);
    if user_shaped(pt) {
        let e = find_byte(pt, BANG);
        let rest = pt.subrange(e + 1, pt.len() as int);
        lemma_find_byte(rest, AT);
        let a = find_byte(rest, AT);
        assert forall|i: int| 0 <= i < e implies pt.subrange(0, e)[i] != BANG by {
            assert(pt[i] != BANG);
        }
        assert forall|i: int| 0 <= i < a implies rest.subrange(0, a)[i] != AT by {
            assert(rest[i] != AT);
        }
    }
}

/// Every parameter sequence a decode yields is well formed: each middle
/// parameter was cut at the first space and did not open with the marker.
pub proof fn lemma_parse_params_wf(t: Seq<u8>)
    ensures
        wf_params(parse_params_spec(t)),
    decreases t.len(),
{
    if t.len() > 0 && t[0] == COLON {
    } else {
        lemma_find_byte(t, SP);
        let p = find_byte(t, SP);
        if 0 <= p < t.len() {
            lemma_parse_params_wf(t.subrange(p + 1, t.len() as int));
            let first = t.subrange(0, p);
            let tail = parse_params_spec(t.subrange(p + 1, t.len() as int));
            let ps = parse_params_spec(t);
            assert(ps == seq![first] + tail);
            assert forall|i: int|
                0 <= i < ps.len() - 1 implies no_space(#[trigger] ps[i]) && (ps[i].len() == 0
                || ps[i][0] != COLON) by {
                if i == 0 {
                    assert forall|j: int| 0 <= j < first.len() implies first[j] != SP by {
                        assert(t[j] != SP);
                    }
                } else {
                    assert(ps[i] == tail[i - 1]);
                }
            }
        }
    }
}

/// A message a decode yields is always well formed: encoding it gives a
/// line that decodes back to it.
pub proof fn lemma_decode_wf(s: Seq<u8>, m: MessageV)
    requires
        decode_spec(s) == Ok::<MessageV, ParseError>(m),
    ensures
        wf_msg(m),
{
    lemma_find_byte(s, SP);
    let rest: Seq<u8> = if s[0] == COLON {
        let p = find_byte(s, SP);
        let pt = s.subrange(1, p);
        assert forall|i: int| 0 <= i < pt.len() implies pt[i] != SP by {
            assert(s[1 + i] != SP);
        }
        lemma_prefix_parse_wf(pt);
        s.subrange(p + 1, s.len() as int)
    } else {
        s
    };
    lemma_find_byte(rest, SP);
    let c = find_byte(rest, SP);
    let ct = rest.subrange(0, c);
    if ct.len() == 3 && all_digits(ct) && !(ct.len() > 0 && all_alpha(ct)) {
        assert(numeric_value(ct) <= 999);
    }
    if c < rest.len() {
        lemma_parse_params_wf(rest.subrange(c + 1, rest.len() as int));
    }
}

/// How a well-formed command token reads back.
pub proof fn lemma_command_bytes(c: CommandV)
    requires
        wf_command(c),
    ensures
        command_bytes(c).len() > 0,
        no_space(command_bytes(c)),
        command_bytes(c)[0] != COLON,
        parse_command_spec(command_bytes(c)) == Some(c),
{
    match c {
        CommandV::Named { name } => {
            assert forall|i: int| 0 <= i < name.len() implies name[i] != SP by {
                assert(is_alpha(name[i]));
            }
        },
        CommandV::Numeric { code } => {
            let db = digit_bytes(code);
            assert(0 <= code / 100 <= 9 && 0 <= (code / 10) % 10 <= 9 && 0 <= code % 10 <= 9
                && 100 * (code / 100) + 10 * ((code / 10) % 10) + (code % 10) == code)
                by (nonlinear_arith)
                requires
                    code <= 999,
            ;
            assert(all_digits(db)) by {
                assert(db.len() == 3);
                assert(is_digit(db[0]) && is_digit(db[1]) && is_digit(db[2]));
            }
            assert(!is_alpha(db[0]));
            assert(numeric_value(db) == code);
        },
    }
}

/// The parameter bytes from any live index open with a space and hold at
/// least the trailing marker.
pub proof fn lemma_params_bytes_shape(ps: Seq<Seq<u8>>, i: int)
    requires
        0 <= i < ps.len(),
    ensures
        params_bytes_from(ps, i).len() >= 2,
        params_bytes_from(ps, i)[0] == SP,
    decreases ps.len() - i,
{
    if i < ps.len() - 1 {
        lemma_params_bytes_shape(ps, i + 1);
    }
}

/// Parsing the encoded parameters from index `i`, once the leading space is
/// stripped, yields exactly the parameters from `i` on.
pub proof fn lemma_params_round_trip(ps: Seq<Seq<u8>>, i: int)
    requires
        wf_params(ps),
        0 <= i < ps.len(),
    ensures
        parse_params_spec(params_bytes_from(ps, i).drop_first()) == ps.subrange(
            i,
            ps.len() as int,
        ),
    decreases ps.len() - i,
{
    let pb = params_bytes_from(ps, i);
    let t = pb.drop_first();
    if i == ps.len() - 1 {
        assert(t =~= seq![COLON] + ps[i]);
        assert(t.subrange(1, t.len() as int) =~= ps[i]);
        assert(parse_params_spec(t) =~~= ps.subrange(i, ps.len() as int));
    } else {
        let pb2 = params_bytes_from(ps, i + 1);
        lemma_params_bytes_shape(ps, i + 1);
        assert(t =~= ps[i] + pb2);
        assert(no_space(ps[i]) && (ps[i].len() == 0 || ps[i][0] != COLON));
        assert(t.len() > 0 && t[0] != COLON) by {
            if ps[i].len() > 0 {
                assert(t[0] == ps[i][0]);
            } else {
                assert(t[0] == pb2[0]);
            }
        }
        lemma_find_concat_hit(ps[i], pb2, SP);
        let p = find_byte(t, SP);
        assert(p == ps[i].len());
        assert(t.subrange(0, p) =~= ps[i]);
        assert(t.subrange(p + 1, t.len() as int) =~= pb2.drop_first());
        lemma_params_round_trip(ps, i + 1);
        assert(parse_params_spec(t) == seq![ps[i]] + ps.subrange(i + 1, ps.len() as int));
        assert(seq![ps[i]] + ps.subrange(i + 1, ps.len() as int) =~= ps.subrange(
            i,
            ps.len() as int,
        ));
    }
}

/// A well-formed prefix reads back from its body.
pub proof fn lemma_prefix_round_trip(p: PrefixV)
    requires
        wf_prefix(p),
    ensures
        prefix_body(p).len() > 0,
        no_space(prefix_body(p)),
        parse_prefix_spec(prefix_body(p)) == p,
{
    let body = prefix_body(p);
    match p {
        PrefixV::User { nick, user, host } => {
            assert(body =~= nick + (seq![BANG] + user + seq![AT] + host));
            lemma_find_concat_hit(nick, seq![BANG] + user + seq![AT] + host, BANG);
            let e = find_byte(body, BANG);
            assert(e == nick.len());
            let rest = body.subrange(e + 1, body.len() as int);
            assert(rest =~= user + (seq![AT] + host));
            lemma_find_concat_hit(user, seq![AT] + host, AT);
            let a = find_byte(rest, AT);
            assert(a == user.len());
            assert(user_shaped(body));
            assert(body.subrange(0, e) =~= nick);
            assert(rest.subrange(0, a) =~= user);
            assert(rest.subrange(a + 1, rest.len() as int) =~= host);
            assert(no_space(body));
            assert(parse_prefix_spec(body) =~~= p);
        },
        PrefixV::Server { name } => {
        },
    }
}

/// Encoding a well-formed message and decoding the result restores the
/// message: the decode/encode round trip.
pub proof fn lemma_encode_decode(m: MessageV)
    requires
        wf_msg(m),
    ensures
        decode_spec(encode_spec(m)) == Ok::<MessageV, ParseError>(m),
{
    let s = encode_spec(m);
    let cmd = command_bytes(m.command);
    let pb = params_bytes_from(m.params, 0);
    let tail = cmd + pb;
    lemma_command_bytes(m.command);
    let rest: Seq<u8> = match m.prefix {
        Some(p) => {
            let body = prefix_body(p);
            lemma_prefix_round_trip(p);
            assert(s =~= (seq![COLON] + body) + (seq![SP] + tail));
            assert forall|i: int|
                0 <= i < (seq![COLON] + body).len() implies (seq![COLON] + body)[i] != SP by {
                if i > 0 {
                    assert(body[i - 1] != SP);
                }
            }
            lemma_find_concat_hit(seq![COLON] + body, seq![SP] + tail, SP);
            let fp = find_byte(s, SP);
            assert(fp == 1 + body.len());
            assert(s[0] == COLON);
            assert(fp < s.len() && fp != 1);
            assert(s.subrange(1, fp) =~= body);
            assert(s.subrange(fp + 1, s.len() as int) =~= tail);
            tail
        },
        None => {
            assert(s =~= tail);
            assert(s[0] == cmd[0]);
            // A command opens with a letter or a digit, never the marker.
            assert(s[0] != COLON) by {
                match m.command {
                    CommandV::Named { name } => {
                        assert(is_alpha(cmd[0]));
                    },
                    CommandV::Numeric { code } => {
                        assert(is_digit(cmd[0]));
                    },
                }
            }
            tail
        },
    };
    // The command token ends at the first space of the remainder.
    if m.params.len() == 0 {
        assert(pb =~= Seq::<u8>::empty());
        assert(rest =~= cmd);
        lemma_find_absent(cmd, SP);
        let fc = find_byte(rest, SP);
        assert(fc == rest.len());
        assert(rest.subrange(0, fc) =~= cmd);
        let dr = decode_spec(s);
        assert(dr is Ok);
        assert(dr->Ok_0 =~~= m);
    } else {
        lemma_params_bytes_shape(m.params, 0);
        lemma_find_concat_hit(cmd, pb, SP);
        let fc = find_byte(rest, SP);
        assert(fc == cmd.len());
        assert(fc < rest.len());
        assert(rest.subrange(0, fc) =~= cmd);
        assert(rest.subrange(fc + 1, rest.len() as int) =~= pb.drop_first());
        lemma_params_round_trip(m.params, 0);
        assert(parse_params_spec(pb.drop_first()) == m.params.subrange(
            0,
            m.params.len() as int,
        ));
        assert(m.params.subrange(0, m.params.len() as int) =~= m.params);
        let dr = decode_spec(s);
        assert(dr is Ok);
        assert(dr->Ok_0 =~~= m);
    }
}

/// The decode/encode round trip, stated from the wire side: any line that
/// decodes yields a well-formed message, and encoding that message gives a
/// line decoding back to the very same value.
pub proof fn lemma_decode_encode_round_trip(s: Seq<u8>, m: MessageV)
    requires
        decode_spec(s) == Ok::<MessageV, ParseError>(m),
    ensures
        wf_msg(m),
        decode_spec(encode_spec(m)) == Ok::<MessageV, ParseError>(m),
{
    lemma_decode_wf(s, m);
    lemma_encode_decode(m);
}

/// `s` without its trailing carriage-return and line-feed bytes.
pub open spec fn strip_crlf_spec(s: Seq<u8>) -> Seq<u8>
    decreases s.len(),
{
    if s.len() > 0 && (s.last() == 13 || s.last() == 10) {
        strip_crlf_spec(s.drop_last())
    } else {
        s
    }
}

/// Strip the line terminator a transport read leaves on a line, so the
/// decoder sees the line alone.
pub fn strip_crlf(line: &[u8]) -> (r: &[u8])
    ensures
        r@ == strip_crlf_spec(line@),
{
    let mut end = line.len();
    proof {
        assert(line@.subrange(0, end as int) =~= line@);
    }
    while end > 0 && (line[end - 1] == 13 || line[end - 1] == 10)
        invariant
            end <= line@.len(),
            strip_crlf_spec(line@) == strip_crlf_spec(line@.subrange(0, end as int)),
        decreases end,
    {
        proof {
            assert(line@.subrange(0, end as int).drop_last() =~= line@.subrange(
                0,
                end as int - 1,
            ));
        }
        end = end - 1;
    }
    proof {
        assert(line@.subrange(0, line@.len() as int) =~= line@);
    }
    &line[0..end]
}

/// An exact copy of a byte vector.
pub(crate) fn clone_bytes(v: &Vec<u8>) -> (r: Vec<u8>)
    ensures
        r@ == v@,
{
    let mut r: Vec<u8> = Vec::new();
    let mut i: usize = 0;
    while i < v.len()
        invariant
            i <= v@.len(),
            r@ == v@.subrange(0, i as int),
        decreases v@.len() - i,
    {
        r.push(v[i]);
        proof {
            assert(r@ =~= v@.subrange(0, i as int + 1));
        }
        i = i + 1;
    }
    proof {
        assert(r@ =~= v@);
    }
    r
}

/// View of an exec decode result.
pub open spec fn line_result_v(r: Result<DecodedLine, ParseError>) -> Result<
    MessageV,
    ParseError,
> {
    match r {
        Ok(m) => Ok(m@),
        Err(e) => Err(e),
    }
}

/// Parse a prefix body (between the leading marker and the first space).
fn parse_prefix_part(pt: &[u8]) -> (r: Prefix)
    ensures
        r@ == parse_prefix_spec(pt@),
{
    let e = scan_byte(pt, BANG);
    if e < pt.len() {
        let rest = &pt[e + 1..pt.len()];
        let a = scan_byte(rest, AT);
        if a < rest.len() {
            return Prefix::User(
                vstd::slice::slice_to_vec(&pt[0..e]),
                vstd::slice::slice_to_vec(&rest[0..a]),
                vstd::slice::slice_to_vec(&rest[a + 1..rest.len()]),
            );
        }
    }
    proof {
        lemma_find_byte(pt@, BANG);
    }
    Prefix::Server(vstd::slice::slice_to_vec(pt))
}

/// View of an exec prefix-parse result.
pub open spec fn prefix_result_v(r: Result<(Prefix, usize), ParseError>) -> Result<
    (PrefixV, int),
    ParseError,
> {
    match r {
        Ok((p, n)) => Ok((p@, n as int)),
        Err(e) => Err(e),
    }
}

/// Where a standalone prefix parse lands: the structured prefix and how many
/// bytes it consumed, terminating space included. The leading marker is
/// optional here, as it is for a whole line's prefix.
pub open spec fn prefix_parser_spec(s: Seq<u8>) -> Result<(PrefixV, int), ParseError> {
    let start: int = if s.len() > 0 && s[0] == COLON {
        1
    } else {
        0
    };
    let p = start + find_byte(s.subrange(start, s.len() as int), SP);
    if p >= s.len() {
        Err(ParseError::UnterminatedPrefix)
    } else if p == start {
        Err(ParseError::EmptyPrefix)
    } else {
        Ok((parse_prefix_spec(s.subrange(start, p)), p + 1))
    }
}

/// Parse one prefix standing at the head of `input`: an optional `:` marker,
/// the prefix body, and its terminating space.
pub fn prefix_parser(input: &[u8]) -> (r: Result<(Prefix, usize), ParseError>)
    ensures
        prefix_result_v(r) == prefix_parser_spec(input@),
{
    let start: usize = if input.len() > 0 && input[0] == COLON {
        1
    } else {
        0
    };
    let body = &input[start..input.len()];
    let scanned = scan_byte(body, SP);
    proof {
        lemma_find_byte(body@, SP);
    }
    let p = start + scanned;
    if p >= input.len() {
        Err(ParseError::UnterminatedPrefix)
    } else if p == start {
        Err(ParseError::EmptyPrefix)
    } else {
        let pfx = parse_prefix_part(&input[start..p]);
        Ok((pfx, p + 1))
    }
}

/// View of an exec command-parse result.
pub open spec fn command_result_v(r: Option<Command>) -> Option<CommandV> {
    match r {
        Some(c) => Some(c@),
        None => None,
    }
}

/// Every byte of `s` is an ASCII letter.
fn check_alpha(s: &[u8]) -> (r: bool)
    ensures
        r == all_alpha(s@),
{
    let mut i: usize = 0;
    while i < s.len()
        invariant
            0 <= i <= s@.len(),
            forall|j: int| 0 <= j < i ==> is_alpha(#[trigger] s@[j]),
        decreases s@.len() - i,
    {
        let b = s[i];
        if !((65 <= b && b <= 90) || (97 <= b && b <= 122)) {
            return false;
        }
        i = i + 1;
    }
    true
}

/// Every byte of `s` is an ASCII decimal digit.
fn check_digits(s: &[u8]) -> (r: bool)
    ensures
        r == all_digits(s@),
{
    let mut i: usize = 0;
    while i < s.len()
        invariant
            0 <= i <= s@.len(),
            forall|j: int| 0 <= j < i ==> is_digit(#[trigger] s@[j]),
        decreases s@.len() - i,
    {
        let b = s[i];
        if !(48 <= b && b <= 57) {
            return false;
        }
        i = i + 1;
    }
    true
}

/// Parse one command token.
fn parse_command(ct: &[u8]) -> (r: Option<Command>)
    ensures
        command_result_v(r) == parse_command_spec(ct@),
{
    if ct.len() > 0 && check_alpha(ct) {
        Some(Command::Named(vstd::slice::slice_to_vec(ct)))
    } else if ct.len() == 3 && check_digits(ct) {
        let code: u16 = (ct[0] - 48) as u16 * 100 + (ct[1] - 48) as u16 * 10 + (ct[2]
            - 48) as u16;
        assert(code == numeric_value(ct@));
        Some(Command::Numeric(code))
    } else {
        None
    }
}

/// Parse the parameter text that follows the command and its first space.
fn parse_params(t: &[u8]) -> (ps: Vec<Vec<u8>>)
    ensures
        ps@.map_values(|p: Vec<u8>| p@) == parse_params_spec(t@),
    decreases t@.len(),
{
    if t.len() > 0 && t[0] == COLON {
        let mut v: Vec<Vec<u8>> = Vec::new();
        v.push(vstd::slice::slice_to_vec(&t[1..t.len()]));
        proof {
            assert(v@.map_values(|p: Vec<u8>| p@) =~~= parse_params_spec(t@));
        }
        v
    } else {
        let p = scan_byte(t, SP);
        proof {
            lemma_find_byte(t@, SP);
        }
        let first = vstd::slice::slice_to_vec(&t[0..p]);
        if p == t.len() {
            let mut v: Vec<Vec<u8>> = Vec::new();
            v.push(first);
            proof {
                assert(t@.subrange(0, p as int) =~= t@);
                assert(v@.map_values(|p: Vec<u8>| p@) =~~= parse_params_spec(t@));
            }
            v
        } else {
            let mut rest = parse_params(&t[p + 1..t.len()]);
            rest.insert(0, first);
            proof {
                assert(rest@.map_values(|p: Vec<u8>| p@) =~~= parse_params_spec(t@));
            }
            rest
        }
    }
}

/// Decode one wire line (without its terminator) into its structured form.
///
/// The result is exactly [`decode_spec`] of the input: decoding is total,
/// and a malformed line yields the matching [`ParseError`] rather than a
/// panic.
pub fn decode(line: &[u8]) -> (r: Result<DecodedLine, ParseError>)
    ensures
        line_result_v(r) == decode_spec(line@),
{
    if line.len() == 0 {
        return Err(ParseError::EmptyLine);
    }
    let (pfx, rest): (Option<Prefix>, &[u8]) = if line[0] == COLON {
        let p = scan_byte(line, SP);
        proof {
            lemma_find_byte(line@, SP);
        }
        if p == line.len() {
            return Err(ParseError::UnterminatedPrefix);
        }
        if p == 1 {
            return Err(ParseError::EmptyPrefix);
        }
        (Some(parse_prefix_part(&line[1..p])), &line[p + 1..line.len()])
    } else {
        (None, line)
    };
    let c = scan_byte(rest, SP);
    proof {
        lemma_find_byte(rest@, SP);
    }
    match parse_command(&rest[0..c]) {
        None => Err(ParseError::BadCommand),
        Some(cmd) => {
            let params: Vec<Vec<u8>> = if c == rest.len() {
                Vec::new()
            } else {
                parse_params(&rest[c + 1..rest.len()])
            };
            let out = DecodedLine { prefix: pfx, command: cmd, params };
            proof {
                let dr = decode_spec(line@);
                assert(dr is Ok);
                assert(dr->Ok_0 =~~= out@);
            }
            Ok(out)
        },
    }
}

/// Append the wire bytes of the parameters from index `i` on.
fn encode_params_into(out: &mut Vec<u8>, ps: &Vec<Vec<u8>>, i: usize)
    ensures
        final(out)@ == old(out)@ + params_bytes_from(
            ps@.map_values(|p: Vec<u8>| p@),
            i as int,
        ),
    decreases ps@.len() - i,
{
    let ghost psv = ps@.map_values(|p: Vec<u8>| p@);
    if i >= ps.len() {
        proof {
            assert(old(out)@ + params_bytes_from(psv, i as int) =~= old(out)@);
        }
        return ;
    }
    out.push(SP);
    if i == ps.len() - 1 {
        out.push(COLON);
        out.extend_from_slice(ps[i].as_slice());
        proof {
            assert(final(out)@ =~= old(out)@ + params_bytes_from(psv, i as int));
        }
    } else {
        out.extend_from_slice(ps[i].as_slice());
        encode_params_into(out, ps, i + 1);
        proof {
            assert(final(out)@ =~= old(out)@ + params_bytes_from(psv, i as int));
        }
    }
}

/// Encode a structured message back to its wire bytes (terminator excluded).
///
/// The result is exactly [`encode_spec`] of the message; the final parameter
/// always carries the trailing marker, so a line whose last parameter holds
/// spaces stays decodable.
pub fn encode(m: &DecodedLine) -> (out: Vec<u8>)
    ensures
        out@ == encode_spec(m@),
{
    let mut out: Vec<u8> = Vec::new();
    match &m.prefix {
        Some(Prefix::User(n, u, h)) => {
            out.push(COLON);
            out.extend_from_slice(n.as_slice());
            out.push(BANG);
            out.extend_from_slice(u.as_slice());
            out.push(AT);
            out.extend_from_slice(h.as_slice());
            out.push(SP);
            proof {
                assert(out@ =~= prefix_bytes(m@.prefix->Some_0));
            }
        },
        Some(Prefix::Server(nm)) => {
            out.push(COLON);
            out.extend_from_slice(nm.as_slice());
            out.push(SP);
            proof {
                assert(out@ =~= prefix_bytes(m@.prefix->Some_0));
            }
        },
        None => {},
    }
    let ghost base = out@;
    match &m.command {
        Command::Named(w) => {
            out.extend_from_slice(w.as_slice());
        },
        Command::Numeric(code) => {
            out.push((48 + code / 100) as u8);
            out.push((48 + (code / 10) % 10) as u8);
            out.push((48 + code % 10) as u8);
            proof {
                assert(out@ =~= base + digit_bytes(m@.command->Numeric_code));
            }
        },
    }
    let ghost base2 = out@;
    encode_params_into(&mut out, &m.params, 0);
    proof {
        assert(out@ =~= encode_spec(m@));
    }
    out
}

} // verus!
