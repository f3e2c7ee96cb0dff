//! The handshakes step by step.

use rfbproxy::auth::credentials::{
    client_username_password, parse_client_username_password, Credentials,
};
use rfbproxy::auth::replit::authenticate_replit;
use rfbproxy::auth::token::{Pubkeys, TokenError, UnixTime};
use rfbproxy::auth::vnc::{reverse_bits, vnc_des_encrypt, vnc_des_key};
use rfbproxy::auth::{
    authenticate, AuthError, Authenticator, ClientEvent, FrameError, Handshake, Next, Output,
    RfbAuthentication, Step,
};
use rfbproxy::messages::io::Cursor;

fn binary(data: &[u8]) -> ClientEvent {
    ClientEvent::Binary(data.to_vec())
}

/// What a step sends, with `>` for the client and `<` for the server.
fn sent(step: &Step) -> Vec<(char, Vec<u8>)> {
    step.outputs
        .iter()
        .map(|output| match output {
            Output::ToClient(data) => ('>', data.clone()),
            Output::ToServer(data) => ('<', data.clone()),
        })
        .collect()
}

fn other() -> ClientEvent {
    ClientEvent::Other("Text(\"hi\")".to_string())
}

fn failed() -> ClientEvent {
    ClientEvent::Failed("reset".to_string())
}

fn reasons(step: &Step) -> String {
    match &step.next {
        Next::Failed(err) => err.chain(),
        next => panic!("did not fail: {:?}", next),
    }
}

fn text_of_failure(step: &Step) -> String {
    match &step.next {
        Next::Failed(err) => err.to_string(),
        next => panic!("did not fail: {:?}", next),
    }
}

#[test]
fn null_authentication_is_done_at_once() {
    let (authenticator, step) = authenticate(&RfbAuthentication::Null);
    assert!(matches!(authenticator, Authenticator::Null));
    assert!(matches!(step.next, Next::Done));
    assert!(step.outputs.is_empty());
}

fn passthrough() -> Authenticator<'static> {
    authenticate(&RfbAuthentication::Passthrough).0
}

#[test]
fn passthrough_relays_everything() {
    let mut a = passthrough();
    let step = a.on_server(b"RFB 003.008\n".to_vec());
    assert_eq!(sent(&step), vec![('>', b"RFB 003.008\n".to_vec())]);
    assert!(matches!(step.next, Next::ReadClient));
    let step = a.on_client(binary(b"RFB 003.007\n"));
    assert_eq!(sent(&step), vec![('<', b"RFB 003.007\n".to_vec())]);
    assert!(matches!(step.next, Next::ReadServer(1024)));
    let step = a.on_server(vec![2, 1, 2]);
    assert_eq!(sent(&step), vec![('>', vec![2, 1, 2])]);
    let step = a.on_client(binary(&[2]));
    assert_eq!(sent(&step), vec![('<', vec![2])]);
    let step = a.on_server(vec![9; 16]);
    assert_eq!(sent(&step), vec![('>', vec![9; 16])]);
    let step = a.on_client(binary(&[8; 16]));
    assert_eq!(sent(&step), vec![('<', vec![8; 16])]);
    // Whatever the result is, the client is told, and can see for itself.
    let step = a.on_server(vec![0, 0, 0, 1]);
    assert_eq!(sent(&step), vec![('>', vec![0, 0, 0, 1])]);
    assert!(matches!(step.next, Next::Done));
}

#[test]
fn passthrough_failures() {
    let step = passthrough().on_server(vec![1, 2]);
    assert!(step.outputs.is_empty());
    assert_eq!(
        text_of_failure(&step),
        "unexpected server handshake: [1, 2]"
    );

    for (event, text) in [
        (failed(), "bad client ProtocolVersion handshake"),
        (other(), "unexpected message Text(\"hi\")"),
        (
            ClientEvent::Ended,
            "missing client ProtocolVersion handshake",
        ),
    ] {
        let mut a = passthrough();
        a.on_server(vec![0; 12]);
        assert_eq!(text_of_failure(&a.on_client(event)), text);
    }

    let chosen = |event: ClientEvent| {
        let mut a = passthrough();
        a.on_server(vec![0; 12]);
        a.on_client(binary(&[0; 12]));
        a.on_server(vec![1, 5]);
        a.on_client(event)
    };
    assert_eq!(
        text_of_failure(&chosen(ClientEvent::Ended)),
        "missing client security handshake"
    );
    assert_eq!(
        text_of_failure(&chosen(failed())),
        "bad client security handshake"
    );
    let step = chosen(binary(&[1, 1]));
    assert!(step.outputs.is_empty());
    assert_eq!(
        text_of_failure(&step),
        "unexpected security-type length. got 2, expected 1"
    );
    // The server hears of the choice all the same.
    let step = chosen(binary(&[5]));
    assert_eq!(sent(&step), vec![('<', vec![5])]);
    assert_eq!(text_of_failure(&step), "unsupported security type 5");

    let responded = |event: ClientEvent| {
        let mut a = passthrough();
        a.on_server(vec![0; 12]);
        a.on_client(binary(&[0; 12]));
        a.on_server(vec![1, 2]);
        a.on_client(binary(&[2]));
        a.on_server(vec![0; 16]);
        a.on_client(event)
    };
    assert_eq!(
        text_of_failure(&responded(ClientEvent::Ended)),
        "missing client VNCAuth security handshake"
    );
    assert_eq!(
        text_of_failure(&responded(failed())),
        "bad client VNCAuth security handshake"
    );
    assert_eq!(
        reasons(&responded(failed())),
        "bad client VNCAuth security handshake: reset"
    );
    assert_eq!(
        reasons(&responded(other())),
        "unexpected message Text(\"hi\")"
    );
}

const VERSION: &[u8] = b"RFB 003.008\n";

fn login(username: &str, password: &str) -> Vec<u8> {
    let mut data = (username.len() as u32).to_be_bytes().to_vec();
    data.extend_from_slice(&(password.len() as u32).to_be_bytes());
    data.extend_from_slice(username.as_bytes());
    data.extend_from_slice(password.as_bytes());
    data
}

/// The handshakes up to the credentials.
fn before_login(keys: &Pubkeys) -> rfbproxy::auth::replit::Replit<'_> {
    let (mut a, step) = authenticate_replit("repl", keys);
    assert_eq!(sent(&step), vec![('>', VERSION.to_vec())]);
    assert_eq!(
        sent(&a.on_client(binary(VERSION))),
        vec![('>', vec![1, 19])]
    );
    assert_eq!(sent(&a.on_client(binary(&[19]))), vec![('>', vec![0, 2])]);
    assert_eq!(
        sent(&a.on_client(binary(&[0, 2]))),
        vec![('>', vec![0]), ('>', vec![1, 0, 0, 1, 0])]
    );
    let step = a.on_client(binary(&[0, 0, 1, 0]));
    assert!(step.outputs.is_empty());
    assert!(matches!(step.next, Next::ReadClient));
    a
}

fn runner(keys: &Pubkeys) -> rfbproxy::auth::replit::Replit<'_> {
    let mut a = before_login(keys);
    let step = a.on_client(binary(&login("runner", "password")));
    assert!(step.outputs.is_empty());
    assert!(matches!(step.next, Next::ReadServer(1024)));
    a
}

#[test]
fn replit_client_handshake_failures() {
    let keys = Pubkeys::new();
    let answers: [&[u8]; 4] = [VERSION, &[19], &[0, 2], &[0, 0, 1, 0]];
    let texts = [
        "client ProtocolVersion handshake",
        "client security type",
        "client VeNCrypt version",
        "client VeNCrypt subtype",
    ];
    for wrong in 0..4 {
        for event in 0..4 {
            let (mut a, _) = authenticate_replit("repl", &keys);
            for answer in &answers[..wrong] {
                a.on_client(binary(answer));
            }
            let event = match event {
                0 => binary(b"no"),
                1 => other(),
                2 => failed(),
                _ => ClientEvent::Ended,
            };
            let sent = format!("{:?}", event);
            let step = a.on_client(event);
            assert!(step.outputs.is_empty());
            assert_eq!(text_of_failure(&step), texts[wrong]);
            match step.next {
                Next::Failed(AuthError::Handshake(_, e)) => assert_eq!(
                    sent,
                    match e {
                        FrameError::Mismatch(payload) => format!("Binary({:?})", payload),
                        FrameError::Unexpected(text) => format!("Other({:?})", text),
                        FrameError::Failed(reason) => format!("Failed({:?})", reason),
                        FrameError::Missing => "Ended".to_string(),
                    }
                ),
                next => panic!("{:?}", next),
            }
        }
    }
    let (mut a, _) = authenticate_replit("repl", &keys);
    assert!(matches!(
        a.on_client(ClientEvent::Ended).next,
        Next::Failed(AuthError::Handshake(Handshake::ProtocolVersion, _))
    ));
}

#[test]
fn replit_credential_failures() {
    let keys = Pubkeys::new();
    for (event, text) in [
        (failed(), "bad WebSocket message"),
        (other(), "unexpected message Text(\"hi\")"),
        (ClientEvent::Ended, "missing client message"),
    ] {
        let mut a = before_login(&keys);
        assert_eq!(text_of_failure(&a.on_client(event)), text);
    }
    let mut a = before_login(&keys);
    let step = a.on_client(binary(&[0, 0, 0, 1, 0, 0, 0, 0, 0xff]));
    assert!(matches!(step.next, Next::Failed(AuthError::CredentialsText(_))));
    assert_eq!(
        text_of_failure(&step),
        "invalid utf-8 sequence of 1 bytes from index 0"
    );
    let mut a = before_login(&keys);
    let step = a.on_client(binary(&[0, 0, 0, 0, 0, 0, 0, 1, 0xff]));
    assert!(matches!(step.next, Next::Failed(AuthError::CredentialsText(_))));
    assert_eq!(
        text_of_failure(&step),
        "invalid utf-8 sequence of 1 bytes from index 0"
    );
}

#[test]
fn replit_rejects_bad_tokens() {
    let keys = Pubkeys::new();
    // The runner without a password needs a token, too.
    for (username, password) in [("token", "password"), ("runner", "")] {
        let mut a = before_login(&keys);
        let step = a.on_client_at(
            binary(&login(username, password)),
            Some(UnixTime {
                seconds: 0,
                nanos: 0,
            }),
        );
        assert_eq!(sent(&step), vec![('>', vec![0, 0, 0, 1])]);
        assert_eq!(text_of_failure(&step), "token validation");
        assert_eq!(
            reasons(&step),
            "token validation: token has wrong number of parts: 1"
        );
        assert!(matches!(
            step.next,
            Next::Failed(AuthError::Token(TokenError::PartCount(1)))
        ));
    }
}

#[test]
fn replit_verdicts() {
    let keys = Pubkeys::new();
    let mut a = before_login(&keys);
    let step = a.on_verdict(Ok(()));
    assert!(step.outputs.is_empty());
    assert!(matches!(step.next, Next::ReadServer(1024)));
    let mut a = before_login(&keys);
    let step = a.on_verdict(Err(TokenError::Expired(0)));
    assert_eq!(sent(&step), vec![('>', vec![0, 0, 0, 1])]);
    assert!(matches!(step.next, Next::Failed(AuthError::Token(_))));
}

#[test]
fn replit_server_failures() {
    let keys = Pubkeys::new();
    let step = runner(&keys).on_server(b"RFB 003.003\n".to_vec());
    assert_eq!(text_of_failure(&step), "server ProtocolVersion handshake");

    for (data, text) in [
        (vec![], "invalid SecurityType payload []"),
        (vec![0], "invalid SecurityType payload [0]"),
        (vec![2, 1], "invalid SecurityType payload [2, 1]"),
        (vec![1, 16], "no supported SecurityTypes found: [16]"),
    ] {
        let mut a = runner(&keys);
        assert_eq!(
            sent(&a.on_server(VERSION.to_vec())),
            vec![('<', VERSION.to_vec())]
        );
        let step = a.on_server(data);
        assert!(step.outputs.is_empty());
        assert_eq!(text_of_failure(&step), text);
    }

    let mut a = runner(&keys);
    a.on_server(VERSION.to_vec());
    let step = a.on_server(vec![2, 1, 2]);
    assert_eq!(sent(&step), vec![('<', vec![2])]);
    assert!(matches!(step.next, Next::ReadServer(16)));
    let step = a.on_server(vec![1, 2, 3]);
    assert_eq!(text_of_failure(&step), "invalid VncAuth nonce: [1, 2, 3]");

    let mut a = runner(&keys);
    a.on_server(VERSION.to_vec());
    a.on_server(vec![1, 2]);
    a.on_server(vec![0; 16]);
    // The client is told of the failure.
    let step = a.on_server(vec![0, 0, 0, 1, 7]);
    assert_eq!(sent(&step), vec![('>', vec![0, 0, 0, 1, 7])]);
    assert_eq!(
        text_of_failure(&step),
        "authentication failure: [0, 0, 0, 1, 7]"
    );
}

#[test]
fn runners_need_a_server_with_a_password() {
    let keys = Pubkeys::new();
    let mut a = runner(&keys);
    a.on_server(VERSION.to_vec());
    let step = a.on_server(vec![1, 1]);
    assert_eq!(sent(&step), vec![('>', vec![0, 0, 0, 1])]);
    assert!(matches!(step.next, Next::Failed(AuthError::NoPassword)));
}

#[test]
fn credentials_in_pieces() {
    let data = login("user", "secret");
    for cut in 0..data.len() {
        let mut buf = bytes::BytesMut::new();
        assert!(matches!(
            client_username_password(&mut buf, &binary(&data[..cut])),
            Credentials::Incomplete
        ));
        assert!(matches!(
            client_username_password(&mut buf, &binary(&data[cut..])),
            Credentials::Complete(u, p) if u == "user" && p == "secret"
        ));
        assert_eq!(&buf[..], &data[..]);
    }
    let mut cur = Cursor::new(&data);
    assert_eq!(
        parse_client_username_password(&mut cur).unwrap(),
        (b"user".to_vec(), b"secret".to_vec())
    );
    assert_eq!(cur.position(), data.len());

    // There is nothing at the end, or behind it.
    for pos in [data.len(), data.len() + 1, usize::MAX] {
        let mut cur = Cursor::new(&data);
        cur.set_position(pos);
        assert!(parse_client_username_password(&mut cur).is_err());
        assert_eq!(cur.position(), pos);
    }
}

#[test]
fn bits_are_reversed() {
    assert_eq!(reverse_bits(0b0000_0001), 0b1000_0000);
    assert_eq!(reverse_bits(0b1101_0010), 0b0100_1011);
    for b in 0..=255u8 {
        assert_eq!(reverse_bits(b), b.reverse_bits());
        assert_eq!(reverse_bits(reverse_bits(b)), b);
    }
}

#[test]
fn keys_have_eight_bytes() {
    assert_eq!(vnc_des_key(""), vec![0; 8]);
    assert_eq!(
        vnc_des_key("pass"),
        vec![0x0e, 0x86, 0xce, 0xce, 0, 0, 0, 0]
    );
    assert_eq!(vnc_des_key("password"), vnc_des_key("password and more"));
    assert_eq!(vnc_des_key("é").len(), 8);
}

#[test]
fn challenges_are_encrypted() {
    let mut buf = *b"\x9e\xdd\x1d\xc2\xee\x5a\x5e\x78\x7f\x55\x21\xf2\x67\x9f\x71\xd6";
    let whole = {
        vnc_des_encrypt("password", &mut buf);
        buf
    };
    assert_eq!(
        &whole,
        b"\x15\x6d\x69\xd7\x0f\x22\x21\xb5\x6f\x46\xe2\x92\xa3\xe2\x68\x37"
    );
    // Each block is encrypted on its own.
    let mut first = *b"\x9e\xdd\x1d\xc2\xee\x5a\x5e\x78";
    vnc_des_encrypt("password", &mut first);
    assert_eq!(first, whole[..8]);
    assert_eq!(first.len(), 8);
    let mut nothing: [u8; 0] = [];
    vnc_des_encrypt("password", &mut nothing);
}
