//! Protocol logic of a small TCP/TLS chat: credential framing, the server's
//! control channel, the clients' reactions to server messages, and the
//! broadcast relay, all over plain values handed in by the programs in `app/`.

pub mod client;
pub mod control;
pub mod credentials;
pub mod relay;
pub mod std_calls;
pub mod text;
pub mod tls_setup;
