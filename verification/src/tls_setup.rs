//! The TLS server's acceptor, made from a PKCS #12 archive and its password.

use vstd::prelude::*;
use crate::text::{trim, trim_spec};

verus! {

#[verifier::external_type_specification]
#[verifier::external_body]
pub struct ExIdentity(native_tls::Identity);

#[verifier::external_type_specification]
#[verifier::external_body]
pub struct ExTlsAcceptor(native_tls::TlsAcceptor);

#[verifier::external_type_specification]
#[verifier::external_body]
pub struct ExTlsError(native_tls::Error);

/// Why the acceptor could not be made.
#[derive(Debug)]
pub enum SetupError {
    /// The archive could not be read with the password.
    Identity(native_tls::Error),
    /// The TLS library refused the identity.
    Acceptor(native_tls::Error),
}

/// `native_tls::Identity::from_pkcs12`: parses a DER PKCS #12 archive,
/// decrypting the key with `password`. Nothing is claimed of the outcome,
/// which rests on the system's TLS library. The password is handed to
/// OpenSSL as a C string, which panics on an inner NUL, so such passwords
/// are ruled out.
#[verifier::external_body]
fn identity_from_pkcs12(der: &[u8], password: &str) -> (r: Result<
    native_tls::Identity,
    native_tls::Error,
>)
    requires
        !password@.contains('\0'),
{
    native_tls::Identity::from_pkcs12(der, password)
}

/// `native_tls::TlsAcceptor::new`: an acceptor with default settings for
/// `identity`. Nothing is claimed of the outcome, which rests on the
/// system's TLS library.
#[verifier::external_body]
fn acceptor_for(identity: native_tls::Identity) -> (r: Result<
    native_tls::TlsAcceptor,
    native_tls::Error,
>) {
    native_tls::TlsAcceptor::new(identity)
}

/// The server's TLS acceptor: the identity in the archive `pkcs12`, opened
/// with `password` trimmed of surrounding white space. The trimmed password
/// must not hold a NUL character.
pub fn server_acceptor(pkcs12: &[u8], password: &str) -> (r: Result<
    native_tls::TlsAcceptor,
    SetupError,
>)
    requires
        !trim_spec(password@).contains('\0'),
{
    let password = trim(password);
    match identity_from_pkcs12(pkcs12, password.as_str()) {
        Ok(identity) => match acceptor_for(identity) {
            Ok(acceptor) => Ok(acceptor),
            Err(e) => Err(SetupError::Acceptor(e)),
        },
        Err(e) => Err(SetupError::Identity(e)),
    }
}

} // verus!
