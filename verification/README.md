# socket_programming

A small chat over TCP and TLS. The protocol logic is a Verus library in
`src/`; the five programs that talk over the network live in `app/`
(`app/main.rs` picks one by name: `server`, `client`, `encryption_client`,
`tls_server`, `tls_client`).

- `src/text.rs`: trimming, suffix stripping, ASCII upper-casing and
  splitting, each proved against a specification over `Seq<char>`.
- `src/credentials.rs`: the login line a client sends and the fields the
  server reads back, with the proof that the two agree.
- `src/control.rs`: the TLS server's answer to each client message.
- `src/client.rs`: the clients' reading of the login answer, of typed
  lines, and of server messages.
- `src/relay.rs`: the broadcast relay's step function.
- `src/tls_setup.rs`: the server's TLS acceptor from a PKCS #12 archive.
- `src/std_calls.rs`: the std string calls the library relies on.

To generate a server identity:

    openssl req -newkey rsa:2048 -nodes -keyout key.pem -x509 -days 365 -out certificate.pem
    openssl pkcs12 -inkey key.pem -in certificate.pem -export -out certificate.p12
