use rustbot::codec::{
    decode, encode, prefix_parser, strip_crlf, Command, DecodedLine, ParseError, Prefix,
};

#[test]
fn test_parsing_user() {
    let input: &[u8] = b":user!host@example.com ";
    match prefix_parser(input) {
        Ok((Prefix::User(nick, user, host), consumed)) => {
            assert_eq!(nick, b"user".to_vec());
            assert_eq!(user, b"host".to_vec());
            assert_eq!(host, b"example.com".to_vec());
            assert_eq!(input.len() - consumed, 0);
        }
        _ => panic!("Error while parsing prefix"),
    }
}

#[test]
fn test_parsing_prefix() {
    let input: &[u8] = b":this.represents.a.server.prefix ";
    match prefix_parser(input) {
        Ok((Prefix::Server(server), consumed)) => {
            assert_eq!(server, b"this.represents.a.server.prefix".to_vec());
            assert_eq!(input.len() - consumed, 0);
        }
        _ => panic!("Error while parsing prefix"),
    }
}

#[test]
fn decode_directed_message() {
    let m = decode(b":nick!user@host PRIVMSG #chan :hello").unwrap();
    match &m.prefix {
        Some(Prefix::User(n, u, h)) => {
            assert_eq!(n, &b"nick".to_vec());
            assert_eq!(u, &b"user".to_vec());
            assert_eq!(h, &b"host".to_vec());
        }
        other => panic!("wrong prefix: {:?}", other),
    }
    assert_eq!(m.command, Command::Named(b"PRIVMSG".to_vec()));
    assert_eq!(m.params, vec![b"#chan".to_vec(), b"hello".to_vec()]);
}

#[test]
fn decode_probe_line() {
    let m = decode(b"PING :token123").unwrap();
    assert!(m.prefix.is_none());
    assert_eq!(m.command, Command::Named(b"PING".to_vec()));
    assert_eq!(m.params, vec![b"token123".to_vec()]);
}

#[test]
fn decode_numeric_command() {
    let m = decode(b":irc.example.com 376 me :End of message of the day.").unwrap();
    match &m.prefix {
        Some(Prefix::Server(s)) => assert_eq!(s, &b"irc.example.com".to_vec()),
        other => panic!("wrong prefix: {:?}", other),
    }
    assert_eq!(m.command, Command::Numeric(376));
    assert_eq!(
        m.params,
        vec![b"me".to_vec(), b"End of message of the day.".to_vec()]
    );
}

#[test]
fn decode_no_params() {
    let m = decode(b"QUIT").unwrap();
    assert!(m.prefix.is_none());
    assert_eq!(m.command, Command::Named(b"QUIT".to_vec()));
    assert!(m.params.is_empty());
}

#[test]
fn decode_errors() {
    assert_eq!(decode(b"").unwrap_err(), ParseError::EmptyLine);
    assert_eq!(decode(b":no.space.anywhere").unwrap_err(), ParseError::UnterminatedPrefix);
    assert_eq!(decode(b": PING x").unwrap_err(), ParseError::EmptyPrefix);
    assert_eq!(decode(b"12 x").unwrap_err(), ParseError::BadCommand);
    assert_eq!(decode(b"1234 x").unwrap_err(), ParseError::BadCommand);
    assert_eq!(decode(b"PI7NG x").unwrap_err(), ParseError::BadCommand);
    assert_eq!(decode(b":server.name ").unwrap_err(), ParseError::BadCommand);
}

#[test]
fn encode_exact_bytes() {
    let m = DecodedLine {
        prefix: None,
        command: Command::Named(b"PONG".to_vec()),
        params: vec![b"token123".to_vec()],
    };
    assert_eq!(encode(&m), b"PONG :token123".to_vec());

    let m2 = DecodedLine {
        prefix: Some(Prefix::User(b"n".to_vec(), b"u".to_vec(), b"h".to_vec())),
        command: Command::Numeric(7),
        params: vec![b"#a".to_vec(), b"hi there".to_vec()],
    };
    assert_eq!(encode(&m2), b":n!u@h 007 #a :hi there".to_vec());
}

#[test]
fn round_trip_well_formed_lines() {
    let lines: Vec<&[u8]> = vec![
        b":nick!user@host PRIVMSG #chan :hello",
        b"PING :token123",
        b":irc.example.com 001 me :Welcome",
        b"QUIT",
        b":a!b@c KICK #chan victim :no reason at all",
        b"MODE #chan +o someone",
    ];
    for line in lines {
        let once = decode(line).expect("well-formed line must decode");
        let wire = encode(&once);
        let twice = decode(&wire).expect("encoded line must decode");
        assert_eq!(once, twice);
    }
}

#[test]
fn strip_crlf_removes_only_the_terminator() {
    assert_eq!(strip_crlf(b"PING :x\r\n"), b"PING :x");
    assert_eq!(strip_crlf(b"PING :x\n"), b"PING :x");
    assert_eq!(strip_crlf(b"PING :x"), b"PING :x");
    assert_eq!(strip_crlf(b"\r\n"), b"");
    assert_eq!(strip_crlf(b"a\rb\nc"), b"a\rb\nc");
}

#[test]
fn round_trip_keeps_spaced_trailing_param() {
    let m = decode(b":x!y@z TOPIC #chan :one two  three").unwrap();
    assert_eq!(m.params[1], b"one two  three".to_vec());
    let again = decode(&encode(&m)).unwrap();
    assert_eq!(m, again);
}
