//! The username and password that a client sends for Plain authentication.

use vstd::prelude::*;
use vstd::slice::slice_to_vec;
use vstd::utf8::{decode_utf8, encode_utf8, encode_utf8_decode_utf8, encode_utf8_valid_utf8};
use vstd::utf8::valid_utf8;

use super::passthrough::frame_error;
use super::{ClientEvent, ClientEventView, FrameError, FrameErrorView};
use crate::data::big_endian;
use crate::messages::io::{be32, get_u32, read, Cursor};
use crate::messages::Error;
use crate::outside::{buffer_append, buffer_bytes, buffered, text_from_utf8, utf8_error};

verus! {

/// The username and the password at the start of `s`, once all of both are there: the length of the
/// one, the length of the other, and the two.
pub open spec fn credentials(s: Seq<u8>) -> Option<(Seq<u8>, Seq<u8>)> {
    if s.len() < 8 {
        None
    } else {
        let u = be32(s, 0);
        let p = be32(s, 4);
        if s.len() < 8 + u + p {
            None
        } else {
            Some((s.subrange(8, 8 + u), s.subrange(8 + u, 8 + u + p)))
        }
    }
}

/// What has become of the credentials after a message of the client.
#[derive(Debug)]
pub enum Credentials {
    /// There is more to come.
    Incomplete,
    /// The username and the password.
    Complete(String, String),
    /// The client did not send a message with data.
    BadFrame(FrameError),
    /// The username or the password is not a text, for that reason.
    BadText(String),
}

/// The mathematical counterpart of [`Credentials`].
pub enum CredentialsView {
    Incomplete,
    Complete(Seq<char>, Seq<char>),
    BadFrame(FrameErrorView),
    BadText(Seq<char>),
}

impl View for Credentials {
    type V = CredentialsView;

    open spec fn view(&self) -> CredentialsView {
        match self {
            Credentials::Incomplete => CredentialsView::Incomplete,
            Credentials::Complete(u, p) => CredentialsView::Complete(u@, p@),
            Credentials::BadFrame(e) => CredentialsView::BadFrame(e@),
            Credentials::BadText(reason) => CredentialsView::BadText(reason@),
        }
    }
}

/// What the client has sent so far, after another message.
pub open spec fn received(buffer: Seq<u8>, event: ClientEventView) -> Seq<u8> {
    match event {
        ClientEventView::Binary(payload) => buffer + payload,
        _ => buffer,
    }
}

/// The credentials in what the client has sent so far, after another message.
pub open spec fn received_credentials(buffer: Seq<u8>, event: ClientEventView) -> CredentialsView {
    match event {
        ClientEventView::Binary(payload) => match credentials(buffer + payload) {
            None => CredentialsView::Incomplete,
            Some((u, p)) => if !valid_utf8(u) {
                CredentialsView::BadText(utf8_error(u))
            } else if !valid_utf8(p) {
                CredentialsView::BadText(utf8_error(p))
            } else {
                CredentialsView::Complete(decode_utf8(u), decode_utf8(p))
            },
        },
        _ => CredentialsView::BadFrame(frame_error(event)),
    }
}

/// Reads the username / password from the client, where `cur` is a view of what the client has sent
/// so far.
pub fn parse_client_username_password(cur: &mut Cursor<'_>) -> (r: Result<
    (Vec<u8>, Vec<u8>),
    Error,
>)
    ensures
        final(cur).data == old(cur).data,
        match r {
            Ok((u, p)) => credentials(old(cur).rest()) == Some((u@, p@)) && final(cur).pos == old(
                cur,
            ).pos + 8 + u@.len() + p@.len(),
            Err(e) => credentials(old(cur).rest()) is None && e is Incomplete,
        },
{
    let ghost s = cur.rest();
    let ghost start = cur.pos as int;
    assert(s.len() >= 8 ==> be32(s, 0) == be32(cur.data@, start) && be32(s, 4) == be32(
        cur.data@,
        start + 4,
    ));
    let username_length: usize = get_u32(cur)? as usize;
    let password_length: usize = get_u32(cur)? as usize;
    let username = read(cur, username_length)?;
    let password = read(cur, password_length)?;
    assert(username@ =~= s.subrange(8, 8 + username_length));
    assert(password@ =~= s.subrange(
        8 + username_length,
        8 + username_length + password_length,
    ));
    Ok((slice_to_vec(username), slice_to_vec(password)))
}

/// Takes a message of the client and reads the username / password from what it has sent so far.
/// Some implementations (like noVNC) send each length and the strings in separate messages, but we
/// should not rely on implementation details. So the messages are put together in `buf`, until
/// [`parse_client_username_password`] finds all that it needs there.
pub fn client_username_password(buf: &mut bytes::BytesMut, event: &ClientEvent) -> (c: Credentials)
    requires
        received(buffered(*old(buf)), event@).len() <= isize::MAX,
    ensures
        buffered(*final(buf)) == received(buffered(*old(buf)), event@),
        c@ == received_credentials(buffered(*old(buf)), event@),
{
    match event {
        ClientEvent::Binary(payload) => {
            buffer_append(buf, payload.as_slice());
        },
        ClientEvent::Other(description) => {
            return Credentials::BadFrame(FrameError::Unexpected(description.clone()));
        },
        ClientEvent::Failed(reason) => {
            return Credentials::BadFrame(FrameError::Failed(reason.clone()));
        },
        ClientEvent::Ended => {
            return Credentials::BadFrame(FrameError::Missing);
        },
    }
    let mut cur = Cursor::new(buffer_bytes(buf));
    assert(cur.rest() =~= cur.data@);
    match parse_client_username_password(&mut cur) {
        Ok((username, password)) => {
            let username = match text_from_utf8(username.as_slice()) {
                Ok(username) => username,
                Err(reason) => {
                    return Credentials::BadText(reason);
                },
            };
            match text_from_utf8(password.as_slice()) {
                Ok(password) => Credentials::Complete(username, password),
                Err(reason) => Credentials::BadText(reason),
            }
        },
        Err(_) => Credentials::Incomplete,
    }
}

/// What a client sends to log in.
pub open spec fn login(username: Seq<char>, password: Seq<char>) -> Seq<u8> {
    let u = encode_utf8(username);
    let p = encode_utf8(password);
    big_endian(u.len() as int, 4) + big_endian(p.len() as int, 4) + u + p
}

proof fn lemma_big_endian_4(n: int)
    requires
        0 <= n <= u32::MAX,
    ensures
        big_endian(n, 4).len() == 4,
        be32(big_endian(n, 4), 0) == n,
{
    reveal_with_fuel(big_endian, 5);
}

/// A login gives the username and the password back, however it is cut into messages: there is
/// nothing to be had before the last byte of it, and both are there with it.
pub proof fn law_login_is_read_back(
    username: Seq<char>,
    password: Seq<char>,
    start: Seq<u8>,
    last: Seq<u8>,
)
    requires
        encode_utf8(username).len() <= u32::MAX,
        encode_utf8(password).len() <= u32::MAX,
        start + last == login(username, password),
    ensures
        last.len() > 0 ==> credentials(start) is None,
        received_credentials(start, ClientEventView::Binary(last)) == CredentialsView::Complete(
            username,
            password,
        ),
{
    let u = encode_utf8(username);
    let p = encode_utf8(password);
    let s = login(username, password);
    lemma_big_endian_4(u.len() as int);
    lemma_big_endian_4(p.len() as int);
    encode_utf8_valid_utf8(username);
    encode_utf8_valid_utf8(password);
    encode_utf8_decode_utf8(username);
    encode_utf8_decode_utf8(password);
    let a = big_endian(u.len() as int, 4);
    let b = big_endian(p.len() as int, 4);
    assert(s.subrange(0, 4) =~= a);
    assert(s.subrange(4, 8) =~= b);
    assert(forall|i: int| 0 <= i < 4 ==> #[trigger] s[i] == a[i]);
    assert(s[4] == b[0] && s[5] == b[1] && s[6] == b[2] && s[7] == b[3]);
    assert(be32(s, 0) == u.len());
    assert(be32(s, 4) == p.len());
    assert(s.subrange(8, 8 + u.len() as int) =~= u);
    assert(s.subrange(8 + u.len() as int, 8 + u.len() + p.len() as int) =~= p);
    assert(forall|i: int| 0 <= i < start.len() ==> #[trigger] start[i] == s[i]);
    if start.len() >= 8 {
        assert(be32(start, 0) == be32(s, 0));
        assert(be32(start, 4) == be32(s, 4));
    }
}

} // verus!
