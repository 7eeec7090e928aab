//! The clients' side of the conversation: the login answer, the lines the
//! user types, and what the clients make of the server's messages.

use vstd::prelude::*;
use vstd::utf8::{decode_utf8, encode_utf8, valid_utf8};
use crate::control::disconnect_text;
use crate::std_calls::{decode_lossy, lowercase, to_lowercase, utf8_lossy};
use crate::text::{same_text, split, split_spec, trim, trim_spec, views_of};

verus! {

/// What the plain client does with a message from the server.
pub enum ServerNotice {
    /// The server ended the session.
    Disconnect,
    /// Show this (trimmed) message.
    Show(String),
}

/// The plain client's reading of a received text: the trimmed text, which
/// ends the session when it is `disconnect`.
pub fn notice_for_text(text: &str) -> (n: ServerNotice)
    ensures
        trim_spec(text@) == disconnect_text() ==> n is Disconnect,
        trim_spec(text@) != disconnect_text() ==> (n matches ServerNotice::Show(m) && m@
            == trim_spec(text@)),
{
    let message = trim(text);
    if same_text(message.as_str(), "disconnect") {
        ServerNotice::Disconnect
    } else {
        ServerNotice::Show(message)
    }
}

/// The plain client's reading of the bytes of one read from the server,
/// decoded as UTF-8 with invalid sequences replaced.
pub fn read_server_notice(received: &[u8]) -> (n: ServerNotice)
    ensures
        ({
            let t = trim_spec(utf8_lossy(received@));
            &&& t == disconnect_text() ==> n is Disconnect
            &&& t != disconnect_text() ==> (n matches ServerNotice::Show(m) && m@ == t)
        }),
        valid_utf8(received@) ==> ({
            let t = trim_spec(decode_utf8(received@));
            &&& t == disconnect_text() ==> n is Disconnect
            &&& t != disconnect_text() ==> (n matches ServerNotice::Show(m) && m@ == t)
        }),
{
    let text = decode_lossy(received);
    notice_for_text(text.as_str())
}

/// The bytes of the server's `disconnect` message are read by the plain
/// client as the end of the session.
pub proof fn lemma_disconnect_understood()
    ensures
        trim_spec(decode_utf8(encode_utf8(disconnect_text()))) == disconnect_text(),
{
    vstd::utf8::encode_utf8_decode_utf8(disconnect_text());
    reveal_strlit("disconnect");
    crate::text::lemma_trim_of_trimmed(disconnect_text());
}

/// The success line of the login answer.
pub open spec fn auth_success_text() -> Seq<char> {
    "Authentication successful!"@
}

/// The lines of the login answer: the received bytes decoded as UTF-8
/// (invalid sequences replaced) and split at each `"\r\n"`.
pub fn auth_reply_parts(received: &[u8]) -> (r: Vec<String>)
    ensures
        views_of(r@) == split_spec(utf8_lossy(received@), "\r\n"@),
        valid_utf8(received@) ==> views_of(r@) == split_spec(decode_utf8(received@), "\r\n"@),
{
    let text = decode_lossy(received);
    proof {
        reveal_strlit("\r\n");
    }
    split(text.as_str(), "\r\n")
}

/// The login answer: the server's verdict and the address it saw.
pub struct AuthReply {
    pub response: String,
    pub client_addr: String,
}

impl AuthReply {
    /// The answer held in the first two lines of the login answer.
    pub fn from_parts(parts: &Vec<String>) -> (a: AuthReply)
        requires
            parts@.len() >= 2,
        ensures
            a.response@ == parts@[0]@,
            a.client_addr@ == parts@[1]@,
    {
        AuthReply { response: parts[0].clone(), client_addr: parts[1].clone() }
    }

    /// Whether the server accepted the login.
    pub fn is_success(&self) -> (b: bool)
        ensures
            b == (self.response@ == auth_success_text()),
    {
        same_text(self.response.as_str(), "Authentication successful!")
    }
}

/// A line the user typed for the plain client: the message to send, and
/// whether it ends the session.
pub struct ChatLine {
    pub message: String,
    pub last: bool,
}

/// The plain client's handling of a typed line: it is trimmed and sent, and
/// `disconnect` ends the session after it is sent.
pub fn chat_line(line: &str) -> (c: ChatLine)
    ensures
        c.message@ == trim_spec(line@),
        c.last == (trim_spec(line@) == disconnect_text()),
{
    let message = trim(line);
    let last = same_text(message.as_str(), "disconnect");
    ChatLine { message, last }
}

/// What the TLS client does with a line the user typed.
pub enum UserInput {
    /// Nothing to send: ask again.
    Skip,
    /// Send `message`; when `stop`, end the session after sending it.
    Send { message: String, stop: bool },
}

/// The TLS client's handling of a trimmed line `message` whose lower-case
/// form is `lowered`: an empty line is skipped, any other is sent, and the
/// word `stop` in any case ends the session.
pub fn input_for_message(message: &str, lowered: &str) -> (u: UserInput)
    ensures
        message@.len() == 0 ==> u is Skip,
        message@.len() > 0 ==> (u matches UserInput::Send { message: m, stop } && m@
            == message@ && stop == (lowered@ == "stop"@)),
{
    if message.is_empty() {
        UserInput::Skip
    } else {
        let stop = same_text(lowered, "stop");
        UserInput::Send { message: message.to_owned(), stop }
    }
}

/// The TLS client's handling of a typed line: trimmed, skipped when empty,
/// otherwise sent, ending the session when its lower-case form is `stop`.
pub fn read_user_input(line: &str) -> (u: UserInput)
    ensures
        trim_spec(line@).len() == 0 ==> u is Skip,
        trim_spec(line@).len() > 0 ==> (u matches UserInput::Send { message: m, stop } && m@
            == trim_spec(line@) && stop == (lowercase(trim_spec(line@)) == "stop"@)),
{
    let message = trim(line);
    let lowered = to_lowercase(message.as_str());
    input_for_message(message.as_str(), lowered.as_str())
}

/// What the TLS client does with one read from the server.
pub enum ServerReply {
    /// The server closed the connection.
    Closed,
    /// Show this text.
    Show(String),
}

/// The TLS client's reading of the bytes of one read: none means the server
/// closed; otherwise the bytes decoded as UTF-8 with invalid sequences
/// replaced are shown.
pub fn read_server_reply(received: &[u8]) -> (r: ServerReply)
    ensures
        received@.len() == 0 <==> r is Closed,
        received@.len() > 0 ==> (r matches ServerReply::Show(t) && t@ == utf8_lossy(received@)),
        received@.len() > 0 && valid_utf8(received@) ==> (r matches ServerReply::Show(t) && t@
            == decode_utf8(received@)),
{
    if received.len() == 0 {
        ServerReply::Closed
    } else {
        ServerReply::Show(decode_lossy(received))
    }
}

/// One operation of the TLS client on its stream.
pub enum ClientEvent {
    /// A write of this message.
    Send(Seq<char>),
    /// A read that returned these bytes.
    Receive(Seq<u8>),
}

/// The operations of the TLS client's session on the typed lines `lines`,
/// the server's reads coming from `chunks` in order (a read past the given
/// chunks returns nothing). Each line is trimmed; an empty one is skipped;
/// any other is sent, and ends the session when it lower-cases to `stop`;
/// otherwise one read follows, and an empty read ends the session.
pub open spec fn tls_client_run(lines: Seq<Seq<char>>, chunks: Seq<Seq<u8>>) -> Seq<ClientEvent>
    decreases lines.len(),
{
    if lines.len() == 0 {
        Seq::empty()
    } else {
        let m = trim_spec(lines[0]);
        if m.len() == 0 {
            tls_client_run(lines.drop_first(), chunks)
        } else if lowercase(m) == "stop"@ {
            seq![ClientEvent::Send(m)]
        } else {
            let c = if chunks.len() > 0 {
                chunks[0]
            } else {
                Seq::<u8>::empty()
            };
            seq![ClientEvent::Send(m), ClientEvent::Receive(c)] + if c.len() == 0 {
                Seq::empty()
            } else {
                tls_client_run(lines.drop_first(), chunks.drop_first())
            }
        }
    }
}

/// A white-space-only line typed anywhere changes nothing: it is skipped
/// without a write or a read.
pub proof fn lemma_blank_line_skipped(
    before: Seq<Seq<char>>,
    blank: Seq<char>,
    after: Seq<Seq<char>>,
    chunks: Seq<Seq<u8>>,
)
    requires
        trim_spec(blank).len() == 0,
    ensures
        tls_client_run(before + seq![blank] + after, chunks) == tls_client_run(before + after, chunks),
    decreases before.len(),
{
    let with = before + seq![blank] + after;
    let without = before + after;
    if before.len() == 0 {
        assert(with.drop_first() =~= after);
        assert(without =~= after);
    } else {
        assert(with[0] == before[0]);
        assert(without[0] == before[0]);
        assert(with.drop_first() =~= before.drop_first() + seq![blank] + after);
        assert(without.drop_first() =~= before.drop_first() + after);
        lemma_blank_line_skipped(before.drop_first(), blank, after, chunks);
        if chunks.len() > 0 {
            lemma_blank_line_skipped(before.drop_first(), blank, after, chunks.drop_first());
        }
    }
}

/// Any number of white-space-only lines typed at one place change nothing.
pub proof fn lemma_blank_lines_skipped(
    before: Seq<Seq<char>>,
    blanks: Seq<Seq<char>>,
    after: Seq<Seq<char>>,
    chunks: Seq<Seq<u8>>,
)
    requires
        forall|i: int| 0 <= i < blanks.len() ==> trim_spec(#[trigger] blanks[i]).len() == 0,
    ensures
        tls_client_run(before + blanks + after, chunks) == tls_client_run(before + after, chunks),
    decreases blanks.len(),
{
    if blanks.len() == 0 {
        assert(before + blanks + after =~= before + after);
    } else {
        let rest = blanks.drop_first();
        assert forall|i: int| 0 <= i < rest.len() implies trim_spec(#[trigger] rest[i]).len()
            == 0 by {
            assert(rest[i] == blanks[i + 1]);
        }
        lemma_blank_lines_skipped(before, rest, after, chunks);
        assert(trim_spec(blanks[0]).len() == 0);
        assert(before + blanks + after =~= before + seq![blanks[0]] + (rest + after));
        lemma_blank_line_skipped(before, blanks[0], rest + after, chunks);
        assert(before + rest + after =~= before + (rest + after));
    }
}

/// Once standard input is exhausted every line read is empty, so from then
/// on the TLS client neither writes to nor reads from the server.
pub proof fn lemma_end_of_input(lines: Seq<Seq<char>>, n: nat, chunks: Seq<Seq<u8>>)
    ensures
        tls_client_run(lines + Seq::new(n, |i: int| Seq::<char>::empty()), chunks)
            == tls_client_run(lines, chunks),
{
    let blanks = Seq::new(n, |i: int| Seq::<char>::empty());
    assert forall|i: int| 0 <= i < blanks.len() implies trim_spec(#[trigger] blanks[i]).len()
        == 0 by {
        assert(blanks[i] =~= Seq::<char>::empty());
    }
    lemma_blank_lines_skipped(lines, blanks, Seq::empty(), chunks);
    assert(lines + blanks + Seq::<Seq<char>>::empty() =~= lines + blanks);
    assert(lines + Seq::<Seq<char>>::empty() =~= lines);
}

} // verus!
