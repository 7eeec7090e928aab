use socket_programming::client::{
    auth_reply_parts, chat_line, input_for_message, notice_for_text, read_server_notice,
    read_server_reply, read_user_input, AuthReply, ServerNotice, ServerReply, UserInput,
};
use socket_programming::control::{
    answer_message, disconnect_message, is_stop_word, respond, session_continues, stream_ops,
    ServerAction, StreamOp,
};
use socket_programming::credentials::{format_credentials, login_fields, Credentials};
use socket_programming::tls_setup::{server_acceptor, SetupError};
use socket_programming::relay::{PeerAddr, Relay, RelayAction, RelayEvent};

fn reply_text(a: ServerAction) -> String {
    match a {
        ServerAction::Reply { upper, response } => {
            assert!(response.ends_with(&upper));
            response
        }
        ServerAction::Closed => panic!("closed"),
        ServerAction::Disconnect => panic!("disconnect"),
    }
}

#[test]
fn credentials_are_trimmed_and_joined() {
    assert_eq!(format_credentials("alice\n", "  s3cret\r\n"), "alice s3cret");
    assert_eq!(format_credentials("", "x"), " x");
}

#[test]
fn login_round_trip() {
    let line = format_credentials(" bob\n", "hunter2\n");
    let fields = login_fields(line.as_bytes());
    assert!(fields.len() >= 2);
    let c = Credentials::from_fields(&fields);
    assert_eq!(c.username, "bob");
    assert_eq!(c.password, "hunter2");
}

#[test]
fn login_fields_cases() {
    assert_eq!(login_fields(b"  a b c \r\n"), vec!["a", "b", "c"]);
    assert_eq!(login_fields(b"onlyname\n"), vec!["onlyname"]);
    assert_eq!(login_fields(b"a\xffb c"), vec!["a\u{fffd}b", "c"]);
    assert_eq!(login_fields(b""), vec![""]);
}

#[test]
fn server_answers_in_upper_case() {
    assert_eq!(reply_text(respond(b"hello")), "HTTP/1.1 200 OK\r\n\r\nHELLO");
    assert_eq!(reply_text(respond(b"Mixed 123\r\n\r\n")), "HTTP/1.1 200 OK\r\n\r\nMIXED 123");
    assert_eq!(reply_text(respond(b"x\r\n")), "HTTP/1.1 200 OK\r\n\r\nX\r\n");
    assert_eq!(reply_text(respond(b"\xff")), "HTTP/1.1 200 OK\r\n\r\n\u{fffd}");
}

#[test]
fn server_stops_on_stop_in_any_case() {
    assert!(matches!(respond(b"stop"), ServerAction::Disconnect));
    assert!(matches!(respond(b"STOP\r\n\r\n"), ServerAction::Disconnect));
    assert!(matches!(respond(b"sToP"), ServerAction::Disconnect));
    assert!(matches!(respond(b"stop "), ServerAction::Reply { .. }));
    assert!(matches!(respond(b""), ServerAction::Closed));
    assert_eq!(disconnect_message(), "disconnect");
}

#[test]
fn answer_message_takes_the_lowered_form() {
    assert!(matches!(answer_message("Stop", "stop"), ServerAction::Disconnect));
    assert_eq!(reply_text(answer_message("Stop", "not stop")), "HTTP/1.1 200 OK\r\n\r\nSTOP");
    assert!(is_stop_word("stop"));
    assert!(!is_stop_word("STOP"));
}

#[test]
fn client_reads_disconnect() {
    let bytes = disconnect_message();
    assert!(matches!(read_server_notice(bytes.as_bytes()), ServerNotice::Disconnect));
    assert!(matches!(read_server_notice(b" disconnect\n"), ServerNotice::Disconnect));
    match read_server_notice(b" HI \r\n") {
        ServerNotice::Show(m) => assert_eq!(m, "HI"),
        ServerNotice::Disconnect => panic!(),
    }
    match notice_for_text("Disconnect") {
        ServerNotice::Show(m) => assert_eq!(m, "Disconnect"),
        ServerNotice::Disconnect => panic!(),
    }
    match read_server_notice(b"\xc3") {
        ServerNotice::Show(m) => assert_eq!(m, "\u{fffd}"),
        ServerNotice::Disconnect => panic!(),
    }
}

#[test]
fn auth_reply() {
    let parts = auth_reply_parts(b"Authentication successful!\r\n127.0.0.1:50000");
    assert_eq!(parts.len(), 2);
    let a = AuthReply::from_parts(&parts);
    assert!(a.is_success());
    assert_eq!(a.client_addr, "127.0.0.1:50000");
    let parts = auth_reply_parts(b"Server: Password authentication failed\r\n");
    assert_eq!(parts, vec!["Server: Password authentication failed", ""]);
    assert!(!AuthReply::from_parts(&parts).is_success());
    assert_eq!(auth_reply_parts(b"no separator").len(), 1);
}

#[test]
fn plain_client_lines() {
    let c = chat_line("  hi there \n");
    assert_eq!(c.message, "hi there");
    assert!(!c.last);
    let c = chat_line("disconnect\n");
    assert_eq!(c.message, "disconnect");
    assert!(c.last);
    assert!(!chat_line("Disconnect\n").last);
}

#[test]
fn tls_client_input() {
    assert!(matches!(read_user_input("  \n"), UserInput::Skip));
    match read_user_input(" hello \n") {
        UserInput::Send { message, stop } => {
            assert_eq!(message, "hello");
            assert!(!stop);
        }
        UserInput::Skip => panic!(),
    }
    match read_user_input("STOP\n") {
        UserInput::Send { message, stop } => {
            assert_eq!(message, "STOP");
            assert!(stop);
        }
        UserInput::Skip => panic!(),
    }
    assert!(matches!(input_for_message("", ""), UserInput::Skip));
    match input_for_message("Stop", "stop") {
        UserInput::Send { message, stop } => {
            assert_eq!(message, "Stop");
            assert!(stop);
        }
        UserInput::Skip => panic!(),
    }
}

#[test]
fn tls_client_replies() {
    assert!(matches!(read_server_reply(b""), ServerReply::Closed));
    match read_server_reply(b"HTTP/1.1 200 OK\r\n\r\nHI") {
        ServerReply::Show(t) => assert_eq!(t, "HTTP/1.1 200 OK\r\n\r\nHI"),
        ServerReply::Closed => panic!(),
    }
    match read_server_reply(b"a\xffb") {
        ServerReply::Show(t) => assert_eq!(t, "a\u{fffd}b"),
        ServerReply::Closed => panic!(),
    }
}

fn addr(port: u16) -> PeerAddr {
    PeerAddr { ip: 0x7f00_0001, v6: false, port, flowinfo: 0, scope_id: 0 }
}

#[test]
fn relay_publishes_and_skips_own_lines() {
    let relay = Relay { own: addr(5000) };
    match relay.step(RelayEvent::LineRead("hi\n".to_string())) {
        RelayAction::Publish { text, from } => {
            assert_eq!(text, "hi\n");
            assert_eq!(from, addr(5000));
        }
        _ => panic!(),
    }
    assert!(matches!(
        relay.step(RelayEvent::Delivered { text: "hi\n".to_string(), from: addr(5000) }),
        RelayAction::Ignore
    ));
    match relay.step(RelayEvent::Delivered { text: "yo\n".to_string(), from: addr(5001) }) {
        RelayAction::Write(t) => assert_eq!(t, "yo\n"),
        _ => panic!(),
    }
    let v6 = PeerAddr { ip: 0x7f00_0001, v6: true, port: 5000, flowinfo: 0, scope_id: 0 };
    assert!(matches!(
        relay.step(RelayEvent::Delivered { text: "x".to_string(), from: v6 }),
        RelayAction::Write(_)
    ));
    assert!(matches!(relay.step(RelayEvent::ReadFailed), RelayAction::Stop));
}

#[test]
fn acceptor_refuses_a_broken_archive() {
    assert!(matches!(server_acceptor(b"not a pkcs12 archive", " pw "), Err(SetupError::Identity(_))));
}

#[test]
fn a_stop_typed_at_the_tls_client_ends_the_session_at_the_server() {
    for line in ["stop\n", " Stop \r\n", "STOP"] {
        match read_user_input(line) {
            UserInput::Send { message, stop } => {
                assert!(stop);
                assert!(matches!(respond(message.as_bytes()), ServerAction::Disconnect));
            }
            UserInput::Skip => panic!(),
        }
    }
}

#[test]
fn disconnect_bytes_end_the_plain_client_session() {
    let msg = disconnect_message();
    match read_server_notice(msg.as_bytes()) {
        ServerNotice::Disconnect => {}
        ServerNotice::Show(_) => panic!(),
    }
}

#[test]
fn each_answer_is_written_then_flushed_after_its_read() {
    let mut trace: Vec<String> = vec!["read login".to_string()];
    let reads: [&[u8]; 3] = [b"hi", b"there\r\n\r\n", b"Stop"];
    for r in reads {
        trace.push(format!("read {}", r.len()));
        let action = respond(r);
        for op in stream_ops(&action) {
            match op {
                StreamOp::Write(t) => trace.push(format!("write {}", t)),
                StreamOp::Flush => trace.push("flush".to_string()),
            }
        }
        if !session_continues(&action) {
            break;
        }
    }
    assert_eq!(
        trace,
        vec![
            "read login",
            "read 2",
            "write HTTP/1.1 200 OK\r\n\r\nHI",
            "flush",
            "read 9",
            "write HTTP/1.1 200 OK\r\n\r\nTHERE",
            "flush",
            "read 4",
            "write disconnect",
            "flush",
        ]
    );
    assert!(stream_ops(&respond(b"")).is_empty());
    assert!(!session_continues(&respond(b"")));
}

fn simulate_tls_client(lines: &[&str], chunks: &[&[u8]]) -> Vec<String> {
    let mut ops = Vec::new();
    let mut next = 0;
    for line in lines {
        match read_user_input(line) {
            UserInput::Skip => continue,
            UserInput::Send { message, stop } => {
                ops.push(format!("send {}", message));
                if stop {
                    break;
                }
                let chunk: &[u8] = if next < chunks.len() { chunks[next] } else { b"" };
                next += 1;
                ops.push(format!("receive {}", chunk.len()));
                match read_server_reply(chunk) {
                    ServerReply::Closed => break,
                    ServerReply::Show(_) => {}
                }
            }
        }
    }
    ops
}

#[test]
fn blank_lines_change_nothing_at_the_tls_client() {
    let chunks: [&[u8]; 2] = [b"HTTP/1.1 200 OK\r\n\r\nA", b"HTTP/1.1 200 OK\r\n\r\nB"];
    let plain = simulate_tls_client(&["a\n", "b\n", "stop\n"], &chunks);
    let padded =
        simulate_tls_client(&["\n", "a\n", " \t\n", "\n", "b\n", "\r\n", "stop\n"], &chunks);
    assert_eq!(plain, padded);
    assert_eq!(plain, vec!["send a", "receive 20", "send b", "receive 20", "send stop"]);
}

#[test]
fn nothing_happens_after_end_of_input_at_the_tls_client() {
    let chunks: [&[u8]; 1] = [b"X"];
    let before = simulate_tls_client(&["a\n"], &chunks);
    let after_eof = simulate_tls_client(&["a\n", "", "", ""], &chunks);
    assert_eq!(before, after_eof);
    assert!(simulate_tls_client(&["", "", ""], &chunks).is_empty());
}

fn simulate_server(reads: &[&[u8]]) -> Vec<String> {
    let mut ops = Vec::new();
    for r in reads {
        ops.push(format!("read {}", r.len()));
        let action = respond(r);
        for op in stream_ops(&action) {
            match op {
                StreamOp::Write(t) => ops.push(format!("write {}", t)),
                StreamOp::Flush => ops.push("flush".to_string()),
            }
        }
        if !session_continues(&action) {
            break;
        }
    }
    ops
}

#[test]
fn login_text_does_not_change_the_answers() {
    let reads: [&[u8]; 2] = [b"x", b"stop"];
    for login in [&b"alice secret"[..], b"mallory wrong", b"a b c"] {
        let fields = login_fields(login);
        assert!(fields.len() >= 2);
        assert_eq!(
            simulate_server(&reads),
            vec!["read 1", "write HTTP/1.1 200 OK\r\n\r\nX", "flush", "read 4", "write disconnect", "flush"]
        );
    }
}

#[test]
fn session_stops_at_the_first_ending_read() {
    let ops = simulate_server(&[b"a", b"", b"never read"]);
    assert_eq!(ops, vec!["read 1", "write HTTP/1.1 200 OK\r\n\r\nA", "flush", "read 0"]);
    let ops = simulate_server(&[b"STOP", b"never read"]);
    assert_eq!(ops, vec!["read 4", "write disconnect", "flush"]);
}
