use rustbot::codec::decode;
use rustbot::liveness::Monitor;
use rustbot::router::{handle_pingpong, route, str_bytes, with_crlf};

#[test]
fn probe_earns_reply_and_rearms_monitor() {
    // One router cycle on an upstream probe.
    let channels = vec![b"#rust".to_vec(), b"#verus".to_vec()];
    let m = decode(b"PING :token123").unwrap();
    let out = route(&m, &channels);
    assert_eq!(out.outbound, vec![b"PONG :token123".to_vec()]);
    assert!(out.probe_seen);
    assert!(!out.greeting_done);
    assert!(out.destination.is_none());

    // The probe re-arms the liveness monitor, as the caller does on probe_seen.
    let mut mon = Monitor::new(300_000);
    mon.probe(5_000);
    assert!(!mon.check(5_000 + 299_999));
}

#[test]
fn prefixed_probe_keeps_its_prefix_in_the_reply() {
    // The reply is the same line with the probe command substituted.
    let channels: Vec<Vec<u8>> = Vec::new();
    let m = decode(b":irc.example.com PING :token123").unwrap();
    let out = route(&m, &channels);
    assert!(out.probe_seen);
    assert_eq!(out.outbound, vec![b":irc.example.com PONG :token123".to_vec()]);
}

#[test]
fn greeting_end_earns_joins_in_configured_order() {
    let channels = vec![b"#rust".to_vec(), b"#verus".to_vec()];
    let m = decode(b":irc.example.com 376 me :End of message of the day.").unwrap();
    let out = route(&m, &channels);
    assert_eq!(
        out.outbound,
        vec![b"JOIN #rust".to_vec(), b"JOIN #verus".to_vec()]
    );
    assert!(out.greeting_done);
    assert!(!out.probe_seen);
}

#[test]
fn directed_message_names_its_destination() {
    let channels = vec![b"#chan".to_vec()];
    let m = decode(b":nick!user@host PRIVMSG #chan :hello").unwrap();
    let out = route(&m, &channels);
    // Delivered to the #chan endpoint; nothing goes on the outbound queue.
    assert_eq!(out.destination, Some(b"#chan".to_vec()));
    assert!(out.outbound.is_empty());

    // A line that directs nowhere reaches only the server-wide endpoint.
    let n = decode(b":irc.example.com NOTICE me :hi").unwrap();
    let out2 = route(&n, &channels);
    assert!(out2.destination.is_none());
}

#[test]
fn ordinary_lines_produce_no_reaction() {
    let channels = vec![b"#rust".to_vec()];
    let m = decode(b":a!b@c JOIN #rust").unwrap();
    let out = route(&m, &channels);
    assert!(out.outbound.is_empty());
    assert!(!out.probe_seen && !out.greeting_done);
    assert!(out.destination.is_none());
}

#[test]
fn pingpong_replaces_probe_token() {
    assert_eq!(
        handle_pingpong("PING :token123"),
        Some("PONG :token123".to_string())
    );
    assert_eq!(handle_pingpong("PING"), Some("PONG".to_string()));
    assert_eq!(handle_pingpong("PINGX"), Some("PONGX".to_string()));
    assert_eq!(handle_pingpong("NOTICE :PING"), None);
    assert_eq!(handle_pingpong("PIN"), None);
    assert_eq!(handle_pingpong(""), None);
}

#[test]
fn wire_helpers() {
    assert_eq!(with_crlf(b"PONG :x"), b"PONG :x\r\n".to_vec());
    assert_eq!(str_bytes("#rust"), b"#rust".to_vec());
}
