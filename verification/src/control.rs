//! The TLS server's data channel: what it answers to each message a client
//! sends after logging in.

use vstd::prelude::*;
use vstd::utf8::{decode_utf8, encode_utf8, valid_utf8};
use crate::std_calls::{decode_lossy, lowercase, to_lowercase, utf8_lossy};
use crate::text::{
    append_str, ascii_upper_spec, lemma_trim_ends, occurs_at, same_text, to_ascii_uppercase,
    trim_end_matches, trim_end_matches_spec, trim_spec,
};

verus! {

/// What the server does with one read from a client.
pub enum ServerAction {
    /// The client closed the connection (the read returned no bytes).
    Closed,
    /// The client asked to stop: answer `disconnect` and end the session.
    Disconnect,
    /// Answer with `response`, the status line followed by `upper`, the
    /// message in ASCII upper case.
    Reply { upper: String, response: String },
}

/// The message in a received text: the text with every trailing
/// `"\r\n\r\n"` removed.
pub open spec fn incoming_message(text: Seq<char>) -> Seq<char> {
    trim_end_matches_spec(text, "\r\n\r\n"@)
}

/// The answer to a message that is not a stop request: an HTTP status line,
/// an empty line, and the message in ASCII upper case.
pub open spec fn reply_text(message: Seq<char>) -> Seq<char> {
    "HTTP/1.1 200 OK\r\n\r\n"@ + ascii_upper_spec(message)
}

/// The word, in lower case, with which a client ends its session.
pub open spec fn stop_word() -> Seq<char> {
    "stop"@
}

/// The text the server sends when it ends a session.
pub open spec fn disconnect_text() -> Seq<char> {
    "disconnect"@
}

/// The text the server sends when it ends a session: `disconnect`.
pub fn disconnect_message() -> (r: String)
    ensures
        r@ == disconnect_text(),
{
    "disconnect".to_owned()
}

/// Whether a lower-cased message is the stop word.
pub fn is_stop_word(lowered: &str) -> (b: bool)
    ensures
        b == (lowered@ == stop_word()),
{
    same_text(lowered, "stop")
}

/// The server's answer to `message`, given its lower-case form `lowered`:
/// a stop request ends the session, anything else is echoed back upper-cased
/// after the status line.
pub fn answer_message(message: &str, lowered: &str) -> (a: ServerAction)
    ensures
        lowered@ == stop_word() ==> a is Disconnect,
        lowered@ != stop_word() ==> (a matches ServerAction::Reply { upper, response } && upper@
            == ascii_upper_spec(message@) && response@ == reply_text(message@)),
{
    if is_stop_word(lowered) {
        ServerAction::Disconnect
    } else {
        let mut out = "HTTP/1.1 200 OK\r\n\r\n".to_owned();
        let upper = to_ascii_uppercase(message);
        append_str(&mut out, upper.as_str());
        ServerAction::Reply { upper, response: out }
    }
}

/// The server's action on the bytes of one read: none means the client
/// closed; otherwise the bytes are decoded (invalid UTF-8 replaced), the
/// trailing `"\r\n\r\n"` runs removed, and the message is answered, a
/// case-insensitive `stop` ending the session.
pub fn respond(received: &[u8]) -> (a: ServerAction)
    ensures
        received@.len() == 0 <==> a is Closed,
        received@.len() > 0 ==> ({
            let m = incoming_message(utf8_lossy(received@));
            &&& lowercase(m) == stop_word() ==> a is Disconnect
            &&& lowercase(m) != stop_word() ==> (a matches ServerAction::Reply { upper, response }
                && upper@ == ascii_upper_spec(m) && response@ == reply_text(m))
        }),
        received@.len() > 0 && valid_utf8(received@) ==> ({
            let m = incoming_message(decode_utf8(received@));
            a matches ServerAction::Reply { upper, response } ==> upper@ == ascii_upper_spec(m)
                && response@ == reply_text(m)
        }),
        action_ops(a) == answer_events(received@),
        continues(a) == !ends_session(received@),
{
    if received.len() == 0 {
        return ServerAction::Closed;
    }
    let text = decode_lossy(received);
    let message = trim_end_matches(text.as_str(), "\r\n\r\n");
    let lowered = to_lowercase(message.as_str());
    answer_message(message.as_str(), lowered.as_str())
}

/// A stop the TLS client sends ends the session at the server: when the
/// trimmed line the user typed lower-cases to `stop`, the server finds the
/// stop word in the bytes of that line.
pub proof fn lemma_client_stop_reaches_server(line: Seq<char>)
    requires
        trim_spec(line).len() > 0,
        lowercase(trim_spec(line)) == stop_word(),
    ensures
        lowercase(incoming_message(decode_utf8(encode_utf8(trim_spec(line))))) == stop_word(),
{
    let t = trim_spec(line);
    vstd::utf8::encode_utf8_decode_utf8(t);
    lemma_trim_ends(line);
    reveal_strlit("\r\n\r\n");
    let pat = "\r\n\r\n"@;
    assert(!occurs_at(t, pat, t.len() - pat.len())) by {
        if occurs_at(t, pat, t.len() - pat.len()) {
            assert(t.subrange(t.len() - pat.len(), t.len() as int)[3] == t.last());
        }
    }
}

/// One operation on the server's stream, as a plain value.
pub enum StreamEvent {
    /// A read that returned these bytes.
    Read(Seq<u8>),
    /// A write of this text.
    Write(Seq<char>),
    /// A flush.
    Flush,
}

/// An operation the server performs on its stream after a read.
pub enum StreamOp {
    /// Write this text.
    Write(String),
    /// Flush the stream.
    Flush,
}

impl View for StreamOp {
    type V = StreamEvent;

    open spec fn view(&self) -> StreamEvent {
        match self {
            StreamOp::Write(t) => StreamEvent::Write(t@),
            StreamOp::Flush => StreamEvent::Flush,
        }
    }
}

/// The operations that carry out an action: nothing when the client
/// closed, otherwise the answer written and flushed.
pub open spec fn action_ops(a: ServerAction) -> Seq<StreamEvent> {
    match a {
        ServerAction::Closed => Seq::empty(),
        ServerAction::Disconnect => seq![
            StreamEvent::Write(disconnect_text()),
            StreamEvent::Flush,
        ],
        ServerAction::Reply { upper, response } => seq![
            StreamEvent::Write(response@),
            StreamEvent::Flush,
        ],
    }
}

/// Whether the session goes on after an action: only after a reply.
pub open spec fn continues(a: ServerAction) -> bool {
    a is Reply
}

/// The stream operations that carry out `action`, in order.
pub fn stream_ops(action: &ServerAction) -> (ops: Vec<StreamOp>)
    ensures
        ops@.map_values(|o: StreamOp| o@) == action_ops(*action),
{
    let mut ops: Vec<StreamOp> = Vec::new();
    match action {
        ServerAction::Closed => {},
        ServerAction::Disconnect => {
            ops.push(StreamOp::Write(disconnect_message()));
            ops.push(StreamOp::Flush);
        },
        ServerAction::Reply { upper, response } => {
            ops.push(StreamOp::Write(response.clone()));
            ops.push(StreamOp::Flush);
        },
    }
    assert(ops@.map_values(|o: StreamOp| o@) =~= action_ops(*action));
    ops
}

/// Whether the session goes on after `action`.
pub fn session_continues(action: &ServerAction) -> (b: bool)
    ensures
        b == continues(*action),
{
    match action {
        ServerAction::Reply { .. } => true,
        _ => false,
    }
}

/// The operations of the data channel: for each read and the action taken
/// on it, the read followed by the action's operations.
pub open spec fn chat_trace(steps: Seq<(Seq<u8>, ServerAction)>) -> Seq<StreamEvent>
    decreases steps.len(),
{
    if steps.len() == 0 {
        Seq::empty()
    } else {
        seq![StreamEvent::Read(steps[0].0)] + action_ops(steps[0].1) + chat_trace(
            steps.drop_first(),
        )
    }
}

/// The operations of a whole session: the login read, which gets no
/// answer, then the data channel.
pub open spec fn session_trace(login: Seq<u8>, steps: Seq<(Seq<u8>, ServerAction)>) -> Seq<
    StreamEvent,
> {
    seq![StreamEvent::Read(login)] + chat_trace(steps)
}

/// Whether each action is one `respond` can give for its read: the client
/// closed exactly when the read was empty.
pub open spec fn actions_fit_reads(steps: Seq<(Seq<u8>, ServerAction)>) -> bool {
    forall|i: int| 0 <= i < steps.len() ==> (#[trigger] steps[i].1 is Closed <==> steps[i].0.len() == 0)
}

/// Whether every write in `t` directly follows a non-empty read and is
/// directly followed by a flush.
pub open spec fn writes_answer_reads(t: Seq<StreamEvent>) -> bool {
    forall|k: int|
        0 <= k < t.len() && #[trigger] t[k] is Write ==> 1 <= k && k + 1 < t.len() && t[k - 1] is Read
            && t[k - 1]->Read_0.len() > 0 && t[k + 1] is Flush
}

proof fn lemma_chat_trace_writes(steps: Seq<(Seq<u8>, ServerAction)>)
    requires
        actions_fit_reads(steps),
    ensures
        writes_answer_reads(chat_trace(steps)),
        chat_trace(steps).len() > 0 ==> chat_trace(steps)[0] is Read,
    decreases steps.len(),
{
    if steps.len() > 0 {
        let rest = steps.drop_first();
        assert(actions_fit_reads(rest)) by {
            assert forall|i: int| 0 <= i < rest.len() implies (#[trigger] rest[i].1 is Closed
                <==> rest[i].0.len() == 0) by {
                assert(rest[i] == steps[i + 1]);
            }
        }
        lemma_chat_trace_writes(rest);
        let head = seq![StreamEvent::Read(steps[0].0)] + action_ops(steps[0].1);
        let tr = chat_trace(rest);
        let t = chat_trace(steps);
        assert(t == head + tr);
        assert(steps[0].1 is Closed <==> steps[0].0.len() == 0);
        assert forall|k: int| 0 <= k < t.len() && #[trigger] t[k] is Write implies 1 <= k && k + 1
            < t.len() && t[k - 1] is Read && t[k - 1]->Read_0.len() > 0 && t[k + 1] is Flush by {
            if k < head.len() {
                assert(k == 1);
                assert(t[0] == StreamEvent::Read(steps[0].0));
                assert(t[2] is Flush);
            } else {
                let j = k - head.len();
                assert(t[k] == tr[j]);
                assert(tr[j] is Write);
                assert(t[k - 1] == tr[j - 1]);
                assert(t[k + 1] == tr[j + 1]);
            }
        }
    }
}

/// In a session of the TLS server every write answers exactly one non-empty
/// read and is followed at once by a flush; the login read gets no answer.
pub proof fn lemma_session_order(login: Seq<u8>, steps: Seq<(Seq<u8>, ServerAction)>)
    requires
        actions_fit_reads(steps),
    ensures
        writes_answer_reads(session_trace(login, steps)),
        session_trace(login, steps).len() > 1 ==> session_trace(login, steps)[1] is Read,
{
    lemma_chat_trace_writes(steps);
    let t = session_trace(login, steps);
    let tr = chat_trace(steps);
    assert forall|k: int| 0 <= k < t.len() && #[trigger] t[k] is Write implies 1 <= k && k + 1
        < t.len() && t[k - 1] is Read && t[k - 1]->Read_0.len() > 0 && t[k + 1] is Flush by {
        assert(k >= 1);
        assert(t[k] == tr[k - 1]);
        assert(tr[k - 1] is Write);
        assert(k - 1 >= 1);
        assert(t[k - 1] == tr[k - 2]);
        assert(t[k + 1] == tr[k]);
    }
    if t.len() > 1 {
        assert(t[1] == tr[0]);
    }
}

/// The operations that answer one read of `received`: nothing when it is
/// empty, otherwise `disconnect` or the reply, written and flushed.
pub open spec fn answer_events(received: Seq<u8>) -> Seq<StreamEvent> {
    if received.len() == 0 {
        Seq::empty()
    } else {
        let m = incoming_message(utf8_lossy(received));
        if lowercase(m) == stop_word() {
            seq![StreamEvent::Write(disconnect_text()), StreamEvent::Flush]
        } else {
            seq![StreamEvent::Write(reply_text(m)), StreamEvent::Flush]
        }
    }
}

/// Whether a read ends the session: the client closed, or sent the stop
/// word.
pub open spec fn ends_session(received: Seq<u8>) -> bool {
    received.len() == 0 || lowercase(incoming_message(utf8_lossy(received))) == stop_word()
}

/// The operations of the data channel on successive reads `reads`: each
/// read and its answer, up to and including the first read that ends the
/// session; later reads never happen.
pub open spec fn server_run(reads: Seq<Seq<u8>>) -> Seq<StreamEvent>
    decreases reads.len(),
{
    if reads.len() == 0 {
        Seq::empty()
    } else {
        seq![StreamEvent::Read(reads[0])] + answer_events(reads[0]) + if ends_session(reads[0]) {
            Seq::empty()
        } else {
            server_run(reads.drop_first())
        }
    }
}

/// The operations of a whole session: the login read, then the data
/// channel.
pub open spec fn session_run(login: Seq<u8>, reads: Seq<Seq<u8>>) -> Seq<StreamEvent> {
    seq![StreamEvent::Read(login)] + server_run(reads)
}

/// Each read answered with a reply: read, write of the reply, flush.
pub open spec fn reply_ops(reads: Seq<Seq<u8>>) -> Seq<StreamEvent>
    decreases reads.len(),
{
    if reads.len() == 0 {
        Seq::empty()
    } else {
        seq![
            StreamEvent::Read(reads[0]),
            StreamEvent::Write(reply_text(incoming_message(utf8_lossy(reads[0])))),
            StreamEvent::Flush,
        ] + reply_ops(reads.drop_first())
    }
}

/// The operations of the read that ends a session: the read alone when the
/// client closed, otherwise the read, `disconnect`, and a flush.
pub open spec fn final_ops(received: Seq<u8>) -> Seq<StreamEvent> {
    if received.len() == 0 {
        seq![StreamEvent::Read(received)]
    } else {
        seq![
            StreamEvent::Read(received),
            StreamEvent::Write(disconnect_text()),
            StreamEvent::Flush,
        ]
    }
}

/// The login read changes nothing that follows it: the credentials are
/// read but never checked, so two sessions that differ only in their login
/// read perform the same operations after it.
pub proof fn lemma_login_changes_nothing(login1: Seq<u8>, login2: Seq<u8>, reads: Seq<Seq<u8>>)
    ensures
        session_run(login1, reads).drop_first() == session_run(login2, reads).drop_first(),
        session_run(login1, reads).drop_first() == server_run(reads),
{
    assert(session_run(login1, reads).drop_first() =~= server_run(reads));
    assert(session_run(login2, reads).drop_first() =~= server_run(reads));
}

/// A session stops at its first ending read: every read before it gets a
/// reply, the ending read gets nothing (the client closed) or `disconnect`,
/// and no later read happens.
pub proof fn lemma_session_shape(reads: Seq<Seq<u8>>, e: int)
    requires
        0 <= e < reads.len(),
        ends_session(reads[e]),
        forall|i: int| 0 <= i < e ==> !ends_session(#[trigger] reads[i]),
    ensures
        server_run(reads) == reply_ops(reads.take(e)) + final_ops(reads[e]),
    decreases e,
{
    if e == 0 {
        assert(reads.take(0) =~= Seq::<Seq<u8>>::empty());
        assert(server_run(reads) =~= final_ops(reads[0]));
    } else {
        let rest = reads.drop_first();
        assert forall|i: int| 0 <= i < e - 1 implies !ends_session(#[trigger] rest[i]) by {
            assert(rest[i] == reads[i + 1]);
        }
        assert(rest[e - 1] == reads[e]);
        lemma_session_shape(rest, e - 1);
        assert(!ends_session(reads[0]));
        assert(reads.take(e).drop_first() =~= rest.take(e - 1));
        assert(reads.take(e)[0] == reads[0]);
        assert(server_run(reads) =~= reply_ops(reads.take(e)) + final_ops(reads[e]));
    }
}

/// While no read ends the session, every read gets a reply.
pub proof fn lemma_session_all_replies(reads: Seq<Seq<u8>>)
    requires
        forall|i: int| 0 <= i < reads.len() ==> !ends_session(#[trigger] reads[i]),
    ensures
        server_run(reads) == reply_ops(reads),
    decreases reads.len(),
{
    if reads.len() > 0 {
        let rest = reads.drop_first();
        assert forall|i: int| 0 <= i < rest.len() implies !ends_session(#[trigger] rest[i]) by {
            assert(rest[i] == reads[i + 1]);
        }
        lemma_session_all_replies(rest);
        assert(!ends_session(reads[0]));
        assert(server_run(reads) =~= reply_ops(reads));
    }
}

} // verus!
