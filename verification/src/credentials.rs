//! The login line: what a client sends as its credentials, and how the
//! server reads the user name and password back out of it.

use vstd::prelude::*;
use vstd::utf8::{decode_utf8, encode_utf8, valid_utf8};
use crate::std_calls::{decode_lossy, utf8_lossy};
use crate::text::{
    append_str, lemma_split_leading_field, lemma_split_without_separator, lemma_trim_ends,
    lemma_trim_of_trimmed, split, split_spec, trim, trim_spec, views_of,
};

verus! {

/// The login line for a user-name line and a password line: both trimmed,
/// joined by one space.
pub open spec fn credentials_text(username: Seq<char>, password: Seq<char>) -> Seq<char> {
    trim_spec(username) + seq![' '] + trim_spec(password)
}

/// The fields the server reads out of a received login text: the trimmed
/// text split at each space.
pub open spec fn login_fields_spec(text: Seq<char>) -> Seq<Seq<char>> {
    split_spec(trim_spec(text), seq![' '])
}

/// Builds the login line `"<username> <password>"` from the raw lines the
/// user typed, each trimmed of surrounding white space.
pub fn format_credentials(username: &str, password: &str) -> (r: String)
    ensures
        r@ == credentials_text(username@, password@),
{
    let mut r = trim(username);
    push_space(&mut r);
    let p = trim(password);
    append_str(&mut r, p.as_str());
    r
}

fn push_space(s: &mut String)
    ensures
        final(s)@ == old(s)@.push(' '),
{
    crate::std_calls::push_char(s, ' ');
}

/// The fields of a received login message: the bytes decoded as UTF-8
/// (invalid sequences replaced), trimmed, split at each space.
pub fn login_fields(received: &[u8]) -> (r: Vec<String>)
    ensures
        views_of(r@) == login_fields_spec(utf8_lossy(received@)),
        valid_utf8(received@) ==> views_of(r@) == login_fields_spec(decode_utf8(received@)),
{
    let text = decode_lossy(received);
    let t = trim(text.as_str());
    let sep = " ";
    proof {
        reveal_strlit(" ");
    }
    assert(sep@ =~= seq![' ']);
    split(t.as_str(), sep)
}

/// A user name and password as read from a login message.
pub struct Credentials {
    pub username: String,
    pub password: String,
}

impl Credentials {
    /// The credentials in the first two fields of a login message.
    pub fn from_fields(fields: &Vec<String>) -> (c: Credentials)
        requires
            fields@.len() >= 2,
        ensures
            c.username@ == fields@[0]@,
            c.password@ == fields@[1]@,
    {
        Credentials { username: fields[0].clone(), password: fields[1].clone() }
    }
}

/// What a client sends as its login line, the server reads back: the
/// trimmed user name and the trimmed password, as long as both are
/// non-empty and hold no space.
pub proof fn lemma_login_round_trip(username: Seq<char>, password: Seq<char>)
    requires
        trim_spec(username).len() > 0,
        trim_spec(password).len() > 0,
        !trim_spec(username).contains(' '),
        !trim_spec(password).contains(' '),
    ensures
        login_fields_spec(decode_utf8(encode_utf8(credentials_text(username, password))))
            == seq![trim_spec(username), trim_spec(password)],
{
    let u = trim_spec(username);
    let p = trim_spec(password);
    let c = credentials_text(username, password);
    vstd::utf8::encode_utf8_decode_utf8(c);
    lemma_trim_ends(username);
    lemma_trim_ends(password);
    assert(c[0] == u[0]);
    assert(c.last() == p.last());
    lemma_trim_of_trimmed(c);
    lemma_split_leading_field(u, seq![' '], p);
    lemma_split_without_separator(p, seq![' ']);
}

} // verus!
