//! Handshakes over mocked connections.

use futures::{SinkExt, StreamExt};
use prost::encoding::{encode_key, encode_varint, WireType};
use ring::signature::KeyPair;
use rfbproxy::auth::api::Timestamp;
use rfbproxy::auth::token::{validate_token, Pubkeys};
use rfbproxy::auth::{authenticate, AuthError, ClientEvent, Next, Output, RfbAuthentication};
use tokio::io::{AsyncReadExt, AsyncWriteExt};
use tokio_test::io::{Builder, Mock};
use tokio_tungstenite::tungstenite::protocol::{Message, Role, WebSocketConfig};
use tokio_tungstenite::WebSocketStream;

fn init() {
    let _ = env_logger::builder().is_test(true).try_init();
}

fn websocket(mock: Mock) -> WebSocketStream<Mock> {
    // Acting as a server to avoid having to unmask the frames.
    tokio_test::block_on(WebSocketStream::from_raw_socket(
        mock,
        Role::Server,
        Some(WebSocketConfig {
            max_send_queue: None,
            max_message_size: None,
            max_frame_size: None,
            accept_unmasked_frames: true,
        }),
    ))
}

async fn run(
    authentication: &RfbAuthentication,
    stream: &mut Mock,
    ws_stream: &mut WebSocketStream<Mock>,
) -> Result<(), AuthError> {
    let (mut authenticator, mut step) = authenticate(authentication);
    loop {
        for output in step.outputs {
            match output {
                Output::ToClient(data) => ws_stream
                    .send(Message::Binary(data))
                    .await
                    .expect("could not send to the client"),
                Output::ToServer(data) => stream
                    .write_all(&data)
                    .await
                    .expect("could not send to the server"),
            }
        }
        step = match step.next {
            Next::Done => return Ok(()),
            Next::Failed(err) => return Err(err),
            Next::ReadServer(max) => {
                let mut buf = vec![0u8; max];
                let n = stream
                    .read(&mut buf)
                    .await
                    .expect("could not read from the server");
                buf.truncate(n);
                authenticator.on_server(buf)
            }
            Next::ReadClient => {
                let event = match ws_stream.next().await {
                    Some(Ok(Message::Binary(payload))) => ClientEvent::Binary(payload),
                    Some(Ok(msg)) => ClientEvent::Other(format!("{:?}", msg)),
                    Some(Err(err)) => ClientEvent::Failed(err.to_string()),
                    None => ClientEvent::Ended,
                };
                assert!(authenticator.has_room(&event));
                authenticator.on_client(event)
            }
        };
    }
}

fn put_bytes(buf: &mut Vec<u8>, tag: u32, bytes: &[u8]) {
    encode_key(tag, WireType::LengthDelimited, buf);
    encode_varint(bytes.len() as u64, buf);
    buf.extend_from_slice(bytes);
}

fn put_timestamp(buf: &mut Vec<u8>, tag: u32, timestamp: Timestamp) {
    let mut inner = Vec::new();
    prost::encoding::int64::encode(1, &timestamp.seconds, &mut inner);
    prost::encoding::int32::encode(2, &timestamp.nanos, &mut inner);
    put_bytes(buf, tag, &inner);
}

fn mint_token(
    replid: &str,
    keyid: &str,
    iat: Option<Timestamp>,
    exp: Option<Timestamp>,
    keypair: &ring::signature::Ed25519KeyPair,
) -> Result<String, String> {
    let mut buf = Vec::new();
    if let Some(iat) = iat {
        put_timestamp(&mut buf, 1, iat);
    }
    if let Some(exp) = exp {
        put_timestamp(&mut buf, 2, exp);
    }
    prost::encoding::string::encode(4, &String::from("development"), &mut buf);
    let mut id = Vec::new();
    prost::encoding::string::encode(1, &String::from(replid), &mut id);
    prost::encoding::string::encode(2, &String::from(""), &mut id);
    put_bytes(&mut buf, 8, &id);
    let message = base64::encode(&buf);

    buf.clear();
    prost::encoding::string::encode(1, &String::from(keyid), &mut buf);
    let footer = base64::encode(&buf);

    match paseto::v2::public_paseto(&message, Some(&footer), keypair) {
        Ok(token) => Ok(token),
        Err(err) => Err(format!("failed to generate PASETO: {}", err)),
    }
}

fn generate_keypair() -> ring::signature::Ed25519KeyPair {
    let sys_rand = ring::rand::SystemRandom::new();
    let key_pkcs8 = ring::signature::Ed25519KeyPair::generate_pkcs8(&sys_rand)
        .expect("Failed to generate pkcs8 key!");
    ring::signature::Ed25519KeyPair::from_pkcs8(key_pkcs8.as_ref())
        .expect("Failed to parse keypair")
}

fn single_key(keyid: &str, keypair: &ring::signature::Ed25519KeyPair) -> Pubkeys {
    let mut pubkeys = Pubkeys::new();
    pubkeys.insert(keyid.to_string(), keypair.public_key().as_ref().to_vec());
    pubkeys
}

fn far_future() -> Timestamp {
    Timestamp {
        seconds: 253402329599,
        nanos: 0,
    }
}

#[test]
fn test_passthrough_none_security_type() {
    init();

    let mut socket_mock = Builder::new()
        .read(b"RFB 003.008\n")
        .write(b"RFB 003.008\n")
        // Only the None(1) security type is supported.
        .read(b"\x01\x01")
        .write(b"\x01")
        // Success!
        .read(b"\x00\x00\x00\x00")
        .build();
    let mut websocket_stream = websocket(
        Builder::new()
            .write(b"\x82\x0cRFB 003.008\n")
            .read(b"\x82\x0cRFB 003.008\n")
            .write(b"\x82\x02\x01\x01")
            .read(b"\x82\x01\x01")
            .write(b"\x82\x04\x00\x00\x00\x00")
            .build(),
    );

    tokio_test::block_on(run(
        &RfbAuthentication::Passthrough,
        &mut socket_mock,
        &mut websocket_stream,
    ))
    .expect("could not authenticate");
}

#[test]
fn test_passthrough_vncauth_security_type() {
    init();

    let mut socket_mock = Builder::new()
        .read(b"RFB 003.008\n")
        .write(b"RFB 003.008\n")
        // Only the VncAuth(2) security type is supported.
        .read(b"\x01\x02")
        .write(b"\x02")
        // Challenge + Response. The password is, unsurprisingly, "password".
        .read(b"\x9e\xdd\x1d\xc2\xee\x5a\x5e\x78\x7f\x55\x21\xf2\x67\x9f\x71\xd6")
        .write(b"\x15\x6d\x69\xd7\x0f\x22\x21\xb5\x6f\x46\xe2\x92\xa3\xe2\x68\x37")
        // Success!
        .read(b"\x00\x00\x00\x00")
        .build();
    let mut websocket_stream = websocket(
        Builder::new()
            .write(b"\x82\x0cRFB 003.008\n")
            .read(b"\x82\x0cRFB 003.008\n")
            .write(b"\x82\x02\x01\x02")
            .read(b"\x82\x01\x02")
            .write(b"\x82\x10\x9e\xdd\x1d\xc2\xee\x5a\x5e\x78\x7f\x55\x21\xf2\x67\x9f\x71\xd6")
            .read(b"\x82\x10\x15\x6d\x69\xd7\x0f\x22\x21\xb5\x6f\x46\xe2\x92\xa3\xe2\x68\x37")
            .write(b"\x82\x04\x00\x00\x00\x00")
            .build(),
    );

    tokio_test::block_on(run(
        &RfbAuthentication::Passthrough,
        &mut socket_mock,
        &mut websocket_stream,
    ))
    .expect("could not authenticate");
}

/// The start of the handshake with the client, up to the credentials.
fn vencrypt_preamble(builder: &mut Builder) -> &mut Builder {
    builder
        .write(b"\x82\x0cRFB 003.008\n")
        .read(b"\x82\x0cRFB 003.008\n")
        // Only the VeNCrypt security type is supported.
        .write(b"\x82\x02\x01\x13")
        .read(b"\x82\x01\x13")
        // VeNCrypt version 0.2
        .write(b"\x82\x02\x00\x02")
        .read(b"\x82\x02\x00\x02")
        // Only the Plain subtype is supported.
        .write(b"\x82\x01\x00")
        .write(b"\x82\x05\x01\x00\x00\x01\x00")
        .read(b"\x82\x04\x00\x00\x01\x00")
}

fn token_credentials<'a>(builder: &'a mut Builder, token: &str) -> &'a mut Builder {
    builder
        // Username length
        .read(&[
            0x82,
            0x04,
            0x00,
            0x00,
            (token.len() >> 8 & 0xFF) as u8,
            (token.len() & 0xFF) as u8,
        ])
        // Password length
        .read(b"\x82\x04\x00\x00\x00\x08")
        // Username
        .read(
            &[
                &[
                    0x82,
                    0x7E,
                    (token.len() >> 8 & 0xFF) as u8,
                    (token.len() & 0xFF) as u8,
                ],
                token.as_bytes(),
            ]
            .concat(),
        )
        // Password
        .read(b"\x82\x08password")
}

fn runner_credentials(builder: &mut Builder) -> &mut Builder {
    builder
        // Username length
        .read(b"\x82\x04\x00\x00\x00\x06")
        // Password length
        .read(b"\x82\x04\x00\x00\x00\x08")
        // Username
        .read(b"\x82\x06runner")
        // Password
        .read(b"\x82\x08password")
}

#[test]
fn test_replit_none_security_type() {
    init();

    let replid = "repl";
    let keyid = "keyid";
    let keypair = generate_keypair();
    let token = mint_token(&replid, &keyid, None, Some(far_future()), &keypair)
        .expect("Failed to generate PASETO");

    let mut builder = Builder::new();
    let mut websocket_stream = websocket(
        token_credentials(vencrypt_preamble(&mut builder), &token)
            // Success!
            .write(b"\x82\x04\x00\x00\x00\x00")
            .build(),
    );
    let mut socket_mock = Builder::new()
        .read(b"RFB 003.008\n")
        .write(b"RFB 003.008\n")
        // Only the None(2) security type is supported.
        .read(b"\x01\x01")
        .write(b"\x01")
        // Success!
        .read(b"\x00\x00\x00\x00")
        .build();

    tokio_test::block_on(run(
        &RfbAuthentication::Replit {
            replid: replid.to_string(),
            pubkeys: single_key(keyid, &keypair),
        },
        &mut socket_mock,
        &mut websocket_stream,
    ))
    .expect("could not authenticate");
}

#[test]
fn test_replit_none_security_type_with_runner_username() {
    init();

    let replid = "repl";
    let keyid = "keyid";
    let keypair = generate_keypair();

    let mut builder = Builder::new();
    let mut websocket_stream = websocket(
        runner_credentials(vencrypt_preamble(&mut builder))
            // Oh noes!
            .write(b"\x82\x04\x00\x00\x00\x01")
            .build(),
    );
    let mut socket_mock = Builder::new()
        .read(b"RFB 003.008\n")
        .write(b"RFB 003.008\n")
        // Only the None(2) security type is supported.
        .read(b"\x01\x01")
        .build();

    let auth_err = tokio_test::block_on(run(
        &RfbAuthentication::Replit {
            replid: replid.to_string(),
            pubkeys: single_key(keyid, &keypair),
        },
        &mut socket_mock,
        &mut websocket_stream,
    ))
    .expect_err("Should have rejected the runner username");
    assert_eq!(
        auth_err.to_string(),
        "server does not have a password set up, cannot use basic password authentication."
    );
}

#[test]
fn test_replit_vncauth_security_type() {
    init();

    let replid = "repl";
    let keyid = "keyid";
    let keypair = generate_keypair();
    let token = mint_token(&replid, &keyid, None, Some(far_future()), &keypair)
        .expect("Failed to generate PASETO");

    let mut builder = Builder::new();
    let mut websocket_stream = websocket(
        token_credentials(vencrypt_preamble(&mut builder), &token)
            // Success!
            .write(b"\x82\x04\x00\x00\x00\x00")
            .build(),
    );
    let mut socket_mock = Builder::new()
        .read(b"RFB 003.008\n")
        .write(b"RFB 003.008\n")
        // Only the VncAuth(2) security type is supported.
        .read(b"\x01\x02")
        .write(b"\x02")
        // Challenge + Response. The password is, unsurprisingly, "password".
        .read(b"\x9e\xdd\x1d\xc2\xee\x5a\x5e\x78\x7f\x55\x21\xf2\x67\x9f\x71\xd6")
        .write(b"\x15\x6d\x69\xd7\x0f\x22\x21\xb5\x6f\x46\xe2\x92\xa3\xe2\x68\x37")
        // Success!
        .read(b"\x00\x00\x00\x00")
        .build();

    tokio_test::block_on(run(
        &RfbAuthentication::Replit {
            replid: replid.to_string(),
            pubkeys: single_key(keyid, &keypair),
        },
        &mut socket_mock,
        &mut websocket_stream,
    ))
    .expect("could not authenticate");
}

#[test]
fn test_replit_vncauth_security_type_with_runner_username() {
    init();

    let replid = "repl";
    let keyid = "keyid";
    let keypair = generate_keypair();

    let mut builder = Builder::new();
    let mut websocket_stream = websocket(
        runner_credentials(vencrypt_preamble(&mut builder))
            // Success!
            .write(b"\x82\x04\x00\x00\x00\x00")
            .build(),
    );
    let mut socket_mock = Builder::new()
        .read(b"RFB 003.008\n")
        .write(b"RFB 003.008\n")
        // Only the VncAuth(2) security type is supported.
        .read(b"\x01\x02")
        .write(b"\x02")
        // Challenge + Response. The password is, unsurprisingly, "password".
        .read(b"\x9e\xdd\x1d\xc2\xee\x5a\x5e\x78\x7f\x55\x21\xf2\x67\x9f\x71\xd6")
        .write(b"\x15\x6d\x69\xd7\x0f\x22\x21\xb5\x6f\x46\xe2\x92\xa3\xe2\x68\x37")
        // Success!
        .read(b"\x00\x00\x00\x00")
        .build();

    tokio_test::block_on(run(
        &RfbAuthentication::Replit {
            replid: replid.to_string(),
            pubkeys: single_key(keyid, &keypair),
        },
        &mut socket_mock,
        &mut websocket_stream,
    ))
    .expect("could not authenticate");
}

#[test]
fn test_validate_token() {
    init();

    let replid = "repl";

    let keyid = "keyid";
    let keypair = generate_keypair();
    let pubkeys = single_key(keyid, &keypair);

    let keyid_other = "keyid_other";
    let keypair_other = generate_keypair();
    let pubkeys_other = single_key(keyid_other, &keypair_other);

    let pubkeys_wrong_pubkey = single_key(keyid, &keypair_other);

    let token = mint_token(&replid, &keyid, None, Some(far_future()), &keypair)
        .expect("Failed to generate PASETO");

    validate_token(&token, &replid.to_string(), &pubkeys).expect("Failed to validate token");
    validate_token(
        &String::from("this is not a token"),
        &replid.to_string(),
        &pubkeys,
    )
    .expect_err("Should have rejected an invalid token");
    validate_token(&token, &replid.to_string(), &pubkeys_wrong_pubkey)
        .expect_err("Should have rejected a token signed with a mismatched key");
    validate_token(&token, &replid.to_string(), &pubkeys_other)
        .expect_err("Should have rejected a token signed with an unknown key");
    validate_token(&token, &String::from("other repl"), &pubkeys)
        .expect_err("Should have rejected a token signed for another repl");

    validate_token(
        &mint_token(
            &replid,
            &keyid,
            None,
            Some(Timestamp {
                seconds: 0,
                nanos: 0,
            }),
            &keypair,
        )
        .expect("Failed to generate PASETO"),
        &replid.to_string(),
        &pubkeys,
    )
    .expect_err("Should have rejected an expired token");
    validate_token(
        &mint_token(&replid, &keyid, None, None, &keypair).expect("Failed to generate PASETO"),
        &replid.to_string(),
        &pubkeys,
    )
    .expect_err("Should have rejected an (implicitly) expired token");
    validate_token(
        &mint_token(
            &replid,
            &keyid,
            Some(far_future()),
            Some(far_future()),
            &keypair,
        )
        .expect("Failed to generate PASETO"),
        &replid.to_string(),
        &pubkeys,
    )
    .expect_err("Should have rejected a not-yet-issued token");
}
