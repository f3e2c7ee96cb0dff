//! Connections with audio.

use rfbproxy::audio::{Codec, StreamSettings};
use rfbproxy::auth::ClientEvent;
use rfbproxy::messages::{client, server, Error, ParseError};
use rfbproxy::rfb::{
    Action, ReadHalf, Received, RfbConnection, WriteHalf, WriteNext, Written,
};

fn halves() -> (ReadHalf, WriteHalf) {
    RfbConnection::new(&[0, 0, 0, 0, 32]).split()
}

fn written(half: &mut WriteHalf, data: &[u8]) -> Written {
    assert!(half.has_room(data.len()));
    half.write_all(data)
}

fn to_server(actions: &[Action]) -> Vec<u8> {
    let mut data = Vec::new();
    for action in actions {
        if let Action::ToServer(bytes) = action {
            data.extend_from_slice(bytes);
        }
    }
    data
}

const START_OPUS: [u8; 10] = [245, 0, 0, 6, 1, 2, 0, 0, 0, 32];
const STOP: [u8; 10] = [245, 0, 0, 6, 0, 0, 0, 0, 0, 0];
const FRAME_REQUEST: [u8; 4] = [245, 1, 0, 0];
const CONTINUOUS: [u8; 4] = [245, 2, 0, 0];
const KEY: [u8; 8] = [4, 1, 0, 0, 0, 0, 0, 65];

#[test]
fn client_init() {
    assert_eq!(
        RfbConnection::client_init(ClientEvent::Binary(vec![1])).unwrap(),
        vec![1]
    );
    for (event, text) in [
        (
            ClientEvent::Failed("reset".to_string()),
            "bad ClientInit handshake",
        ),
        (
            ClientEvent::Other("Text(\"hi\")".to_string()),
            "unexpected message Text(\"hi\")",
        ),
        (ClientEvent::Ended, "missing ClientInit handshake"),
    ] {
        assert_eq!(
            RfbConnection::client_init(event).unwrap_err().to_string(),
            text
        );
    }
}

#[test]
fn server_init() {
    let bytes_per_pixel =
        |data: &[u8]| RfbConnection::new(data).connection_state.bytes_per_pixel;
    assert_eq!(bytes_per_pixel(&[0, 1, 0, 1, 32, 24, 0, 1]), 4);
    assert_eq!(bytes_per_pixel(&[0, 1, 0, 1, 8, 24, 0, 1]), 1);
    assert_eq!(bytes_per_pixel(&[0, 1, 0, 1, 15]), 1);
    assert_eq!(bytes_per_pixel(&[0, 1, 0, 1]), 0);
    assert_eq!(bytes_per_pixel(&[]), 0);
}

#[test]
fn server_messages_one_by_one() {
    let (mut half, _) = halves();
    assert!(half.read_server_message(4).unwrap().is_none());
    assert_eq!(half.receive(&[2, 150, 3, 0]), Received::Data);
    assert!(matches!(
        half.read_server_message(4),
        Ok(Some(server::Message::Bell(_)))
    ));
    assert!(matches!(
        half.read_server_message(4),
        Ok(Some(server::Message::EndOfContinuousUpdates(_)))
    ));
    assert!(half.read_server_message(4).unwrap().is_none());
    assert_eq!(half.receive(&[]), Received::ResetByPeer);
    assert!(half.has_room(6));
    assert_eq!(half.receive(&[0, 0, 0, 0, 0, 1, 9]), Received::Data);
    assert!(matches!(
        half.read_server_message(4),
        Ok(Some(server::Message::ServerCutText(data))) if data == [3, 0, 0, 0, 0, 0, 0, 1, 9]
    ));
    assert_eq!(half.receive(&[]), Received::Closed);
    assert_eq!(half.receive(&[77]), Received::Data);
    assert!(matches!(
        half.read_server_message(4),
        Err(Error::Other(ParseError::ServerMessage(77)))
    ));
}

#[test]
fn bytes_per_pixel_matter() {
    let data = [0, 0, 0, 1, 0, 0, 0, 0, 0, 1, 0, 1, 0, 0, 0, 0, 1, 2, 3, 4];
    let (mut half, _) = halves();
    half.receive(&data);
    assert_eq!(half.read_server_message(1).unwrap().unwrap().len(), 17);
    let (mut half, _) = halves();
    half.receive(&data);
    assert_eq!(half.read_server_message(4).unwrap().unwrap().len(), 20);
}

#[test]
fn other_messages_reach_the_server() {
    let mut stream = KEY.to_vec();
    stream.extend_from_slice(&[5, 0, 0, 1, 0, 2]);
    stream.extend_from_slice(&[2, 0, 0, 1, 0x52, 0x70, 0x6c, 0x41]);
    stream.extend_from_slice(&[4, 1]);
    for cut in 0..stream.len() {
        let (_, mut half) = halves();
        let first = written(&mut half, &stream[..cut]);
        assert!(matches!(first.next, WriteNext::Waiting));
        let second = written(&mut half, &stream[cut..]);
        assert!(matches!(second.next, WriteNext::Waiting));
        let mut data = to_server(&first.actions);
        data.extend_from_slice(&to_server(&second.actions));
        assert_eq!(data, stream[..stream.len() - 2]);
        assert_eq!(&half.buf[..], &[4, 1]);
    }
}

#[test]
fn messages_that_are_none() {
    let (_, mut half) = halves();
    let mut stream = KEY.to_vec();
    stream.push(99);
    let w = written(&mut half, &stream);
    assert_eq!(to_server(&w.actions), KEY);
    assert!(matches!(
        w.next,
        WriteNext::Failed(Error::Other(ParseError::ClientMessage(99, _)))
    ));
}

#[test]
fn audio_is_announced() {
    let (_, mut half) = halves();
    let list = [
        2, 0, 0, 3, 0, 0, 0, 7, 0x52, 0x70, 0x6c, 0x41, 0x52, 0x70, 0x6c, 0x41,
    ];
    let w = written(&mut half, &list);
    assert_eq!(w.actions.len(), 3);
    let support = [
        0, 0, 0, 1, 0, 0, 0, 0, 0, 0, 0, 0, 0x52, 0x70, 0x6c, 0x41, 0, 0, 0, 2, 0, 0, 0, 1,
    ];
    assert!(matches!(&w.actions[0], Action::ToClient(data) if data[..] == support));
    assert!(matches!(&w.actions[1], Action::ToClient(data) if data[..] == support));
    assert!(matches!(&w.actions[2], Action::ToServer(data) if data[..] == list));

    let w = written(&mut half, &[2, 0, 0, 1, 0, 0, 0, 7]);
    assert_eq!(w.actions.len(), 1);
}

#[test]
fn pixel_formats_are_noted_and_passed_on() {
    let (_, mut half) = halves();
    let mut format = vec![0, 0, 0, 0, 16];
    format.extend_from_slice(&[0; 15]);
    let w = written(&mut half, &format);
    assert_eq!(w.actions.len(), 2);
    assert!(matches!(w.actions[0], Action::SetBytesPerPixel(2)));
    assert!(matches!(&w.actions[1], Action::ToServer(data) if *data == format));
}

#[test]
fn encoders_start_and_stop() {
    let (_, mut half) = halves();
    let mut stream = START_OPUS.to_vec();
    stream.extend_from_slice(&KEY);
    let w = written(&mut half, &stream);
    assert_eq!(w.actions.len(), 1);
    assert!(matches!(
        w.actions[0],
        Action::StartEncoder(StreamSettings { codec: Codec::Opus, channels: 2, kbps: 32 })
    ));
    assert!(matches!(w.next, WriteNext::EncoderPending));
    // The messages behind it wait for the outcome.
    let w = half.encoder_started(true);
    assert_eq!(w.actions.len(), 2);
    assert!(matches!(&w.actions[0], Action::ToClient(data) if data[..] == [0xf5, 0, 0, 1, 1]));
    assert!(matches!(&w.actions[1], Action::ToServer(data) if data[..] == KEY));
    assert!(half.audio.encoder);

    let w = written(&mut half, &CONTINUOUS);
    assert_eq!(w.actions.len(), 2);
    assert!(matches!(&w.actions[0], Action::ToClient(data) if data[..] == [0xf5, 2, 0, 1, 1]));
    assert!(matches!(w.actions[1], Action::RunAudio));
    assert!(!half.audio.encoder && half.audio.streaming);

    let w = written(&mut half, &CONTINUOUS);
    assert_eq!(w.actions.len(), 1);
    assert!(matches!(&w.actions[0], Action::ToClient(data) if data[..] == [0xf5, 2, 0, 1, 0]));

    // The answer comes after the last frame.
    let w = written(&mut half, &STOP);
    assert_eq!(w.actions.len(), 3);
    assert!(matches!(w.actions[0], Action::StopAudio));
    assert!(matches!(w.actions[1], Action::DropEncoder));
    assert!(matches!(&w.actions[2], Action::ToClient(data) if data[..] == [0xf5, 0, 0, 1, 0]));
    assert!(!half.audio.encoder && !half.audio.streaming);
}

#[test]
fn encoders_that_do_not_start() {
    let (_, mut half) = halves();
    written(&mut half, &START_OPUS);
    let w = half.encoder_started(false);
    assert_eq!(w.actions.len(), 1);
    assert!(matches!(&w.actions[0], Action::ToClient(data) if data[..] == [0xf5, 0, 0, 1, 0]));
    assert!(!half.audio.encoder);
    let w = written(&mut half, &CONTINUOUS);
    assert!(matches!(&w.actions[0], Action::ToClient(data) if data[..] == [0xf5, 2, 0, 1, 0]));

    // An encoder that is there stays.
    written(&mut half, &START_OPUS);
    half.encoder_started(true);
    written(&mut half, &START_OPUS);
    half.encoder_started(false);
    assert!(half.audio.encoder);
}

#[test]
fn encoders_that_nobody_has() {
    for (channels, codec) in [(0, 0), (3, 0), (0, 1), (3, 1), (255, 1), (2, 2), (1, 255)] {
        let (_, mut half) = halves();
        let mut stream = vec![245, 0, 0, 6, 1, channels, 0, codec, 0, 128];
        stream.extend_from_slice(&KEY);
        // The refusal needs no encoder, and the messages behind it do not wait.
        let w = written(&mut half, &stream);
        assert!(matches!(w.next, WriteNext::Waiting));
        assert_eq!(w.actions.len(), 2);
        assert!(matches!(&w.actions[0], Action::ToClient(data) if data[..] == [0xf5, 0, 0, 1, 0]));
        assert!(matches!(&w.actions[1], Action::ToServer(data) if data[..] == KEY));
        assert!(!half.audio.encoder);
    }
    let (_, mut half) = halves();
    let w = written(&mut half, &[245, 0, 0, 6, 1, 1, 0, 1, 0, 128]);
    assert!(matches!(
        w.actions[..],
        [Action::StartEncoder(StreamSettings { codec: Codec::Mp3, channels: 1, kbps: 128 })]
    ));
}

#[test]
fn frame_requests() {
    let (_, mut half) = halves();
    let w = written(&mut half, &FRAME_REQUEST);
    assert!(matches!(&w.actions[..], [Action::ToServer(data)] if data[..] == FRAME_REQUEST));
    written(&mut half, &START_OPUS);
    half.encoder_started(true);
    let w = written(&mut half, &FRAME_REQUEST);
    assert!(matches!(&w.actions[..], [Action::SendFrame]));
    written(&mut half, &CONTINUOUS);
    let w = written(&mut half, &FRAME_REQUEST);
    assert!(w.actions.is_empty());
}

#[test]
fn frame_requests_after_the_updates() {
    let (_, mut half) = halves();
    written(&mut half, &START_OPUS);
    half.encoder_started(true);
    written(&mut half, &CONTINUOUS);
    half.updates_ended();
    assert!(!half.audio.streaming && !half.audio.encoder);
    let w = written(&mut half, &FRAME_REQUEST);
    assert!(matches!(&w.actions[..], [Action::ToServer(data)] if data[..] == FRAME_REQUEST));

    // An encoder that was started meanwhile stays.
    written(&mut half, &START_OPUS);
    half.encoder_started(true);
    written(&mut half, &CONTINUOUS);
    written(&mut half, &START_OPUS);
    half.encoder_started(true);
    half.updates_ended();
    let w = written(&mut half, &FRAME_REQUEST);
    assert!(matches!(&w.actions[..], [Action::SendFrame]));
}

/// The messages that reading gives, and how it ends: what came of the last read, or the error.
fn read_until_end(reads: &[&[u8]]) -> (Vec<Vec<u8>>, Result<Received, String>) {
    let (mut half, _) = halves();
    let mut messages = Vec::new();
    let mut reads = reads.iter();
    loop {
        match half.read_server_message(4) {
            Ok(Some(message)) => messages.push(message.into_data()),
            Ok(None) => match half.receive(reads.next().unwrap_or(&&[][..])) {
                Received::Data => {}
                end => return (messages, Ok(end)),
            },
            Err(e) => return (messages, Err(e.to_string())),
        }
    }
}

#[test]
fn reads_do_not_matter() {
    let whole = [2, 150, 3, 0, 0, 0, 0, 0, 0, 1, 9, 2];
    let messages = vec![
        vec![2],
        vec![150],
        vec![3, 0, 0, 0, 0, 0, 0, 1, 9],
        vec![2],
    ];
    for end in 0..=whole.len() {
        let stream = &whole[..end];
        let at_once = [stream];
        let expected = read_until_end(&at_once[..end.min(1)]);
        let taken: usize = expected.0.iter().map(|m| m.len()).sum();
        assert_eq!(expected.0[..], messages[..expected.0.len()]);
        if taken == end {
            assert_eq!(expected.1, Ok(Received::Closed));
        } else {
            assert_eq!(expected.1, Ok(Received::ResetByPeer));
        }
        for first in 1..end {
            for second in first + 1..end {
                let reads = [&stream[..first], &stream[first..second], &stream[second..]];
                assert_eq!(read_until_end(&reads), expected);
            }
        }
    }
    let failed = (
        vec![vec![2]],
        Err("unsupported server message id: 77".to_string()),
    );
    assert_eq!(read_until_end(&[&[2, 77, 0]]), failed);
    assert_eq!(read_until_end(&[&[2], &[77], &[0]]), failed);
}

#[test]
fn single_messages() {
    let (_, mut half) = halves();
    assert!(matches!(
        half.read_client_message(),
        Err(Error::Incomplete)
    ));
    let actions = half.handle(client::Message::KeyEvent(KEY.to_vec()));
    assert!(matches!(&actions[..], [Action::ToServer(data)] if data[..] == KEY));
}

#[test]
fn frames_stop_at_shutdown() {
    let (_, mut half) = halves();
    written(&mut half, &START_OPUS);
    half.encoder_started(true);
    written(&mut half, &CONTINUOUS);
    let actions = half.shutdown();
    assert!(matches!(&actions[..], [Action::StopAudio]));
    assert!(!half.audio.streaming);

    // An encoder that does not run stays.
    written(&mut half, &START_OPUS);
    half.encoder_started(true);
    half.shutdown();
    assert!(half.audio.encoder);
}
