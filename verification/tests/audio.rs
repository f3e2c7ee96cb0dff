//! Audio frames and the messages that they are sent in.

use std::io::Write;

use rand::Rng;
use rfbproxy::audio::mp3::{check_err, LameError, Mp3Encoder};
use rfbproxy::audio::opus::{OpusEncoder, OpusSettings};
use rfbproxy::audio::webm::{write_cluster, WebmStreamMuxer};
use rfbproxy::audio::{
    answer_message, closing_message, AudioError, Codec, Encoder, RunAction, RunEvent, Slot, Stream,
    StreamSettings, CONTINUOUS_UPDATES, START_ENCODER,
};

fn init() {
    let _ = env_logger::builder().is_test(true).try_init();
}

#[test]
fn test_webm() -> Result<(), Box<dyn std::error::Error>> {
    init();

    let mut enc = OpusEncoder::new(2, 32 * 1024, 312).expect("could not create Opus encoder");

    // What the codec makes of a chunk does not matter to the container.
    let mut packet = vec![0u8; 960];
    rand::thread_rng()
        .try_fill(&mut packet[..])
        .expect("could not generate random payload");

    let mut payload = Vec::<u8>::with_capacity(enc.max_frame_len());
    payload.resize(enc.max_frame_len(), 0);
    payload[..4].copy_from_slice(&[
        0xFF, // message-type
        0x01, // submessage-type
        0x00, 0x02, // operation
    ]);

    let mut payload_size = enc
        .encode_frame(0, Some(&packet), &mut payload[8..])
        .expect("could not encode audio data")
        .0;
    payload_size += enc
        .encode_frame(0, Some(&packet), &mut payload[8 + payload_size..])
        .expect("could not encode audio data")
        .0;

    assert!(payload_size > 0);

    payload[4] = ((payload_size >> 24) & 0xff) as u8;
    payload[5] = ((payload_size >> 16) & 0xff) as u8;
    payload[6] = ((payload_size >> 8) & 0xff) as u8;
    payload[7] = ((payload_size >> 0) & 0xff) as u8;
    payload.truncate(payload_size + 8);
    assert!(payload.len() > 5);

    let mut file = tempfile::NamedTempFile::new()?;
    file.write_all(&payload[8..payload_size])?;

    let mkv = matroska::Matroska::open(file.reopen()?)?;
    assert_eq!(mkv.info.duration, None);
    assert_eq!(mkv.tracks.len(), 1);
    assert_eq!(mkv.tracks[0].tracktype, matroska::Tracktype::Audio);
    assert_eq!(mkv.tracks[0].codec_id, "A_OPUS");
    if let matroska::Settings::Audio(audio) = &mkv.tracks[0].settings {
        assert_eq!(audio.sample_rate, enc.sample_rate() as f64);
        assert_eq!(audio.channels, enc.channels() as u64);
    } else {
        assert!(
            false,
            "failed to parse audio track: {:?}",
            mkv.tracks[0].settings
        );
    }

    Ok(())
}

#[test]
fn cluster_bytes() {
    let mut w = vec![9];
    write_cluster(&mut w, &[0xaa; 300], 0x0102030405060708);
    assert_eq!(w.len(), 1 + 23 + 300);
    assert_eq!(
        w[..24],
        [
            9, 0x1f, 0x43, 0xb6, 0x75, 0x41, 0x3d, 0xe7, 0x88, 1, 2, 3, 4, 5, 6, 7, 8, 0xa3, 0x41,
            0x30, 0x81, 0, 0, 0x80
        ]
    );
    assert!(w[24..].iter().all(|b| *b == 0xaa));
}

#[test]
fn initialization_segment_bytes() {
    let muxer = WebmStreamMuxer::new(48000, 2, 312);
    let mut w = Vec::new();
    muxer.write_initialization_segment_with(&mut w, &[1, 2, 3, 4, 5, 6, 7]);
    assert_eq!(w.len(), 214);
    assert_eq!(w[..4], [0x1a, 0x45, 0xdf, 0xa3]);
    assert_eq!(w[36..48], [0x18, 0x53, 0x80, 0x67, 1, 255, 255, 255, 255, 255, 255, 255]);
    // The positions of the Info, the Tracks and the Cluster, which count from byte 48. The Cluster
    // comes right behind the segment.
    assert_eq!(w[48 + 18], 47);
    assert_eq!(w[48 + 47..48 + 51], [0x15, 0x49, 0xa9, 0x66]);
    assert_eq!(w[48 + 32], 95);
    assert_eq!(w[48 + 95..48 + 99], [0x16, 0x54, 0xae, 0x6b]);
    assert_eq!(w[48 + 46], 166);
    assert_eq!(w.len(), 48 + 166);
    write_cluster(&mut w, &[1, 2, 3], 0);
    assert_eq!(w[48 + 166..48 + 170], [0x1f, 0x43, 0xb6, 0x75]);
    w.truncate(48 + 166);
    assert_eq!(w[156..163], [1, 2, 3, 4, 5, 6, 7]);
    // 312 samples are 6.5 milliseconds.
    assert_eq!(w[177..181], 6_500_000u32.to_be_bytes());
    assert_eq!(w[184..192], *b"OpusHead");
    assert_eq!(w[192..200], [1, 2, 0x38, 0x01, 0x80, 0xbb, 0, 0]);
    assert_eq!(w[213], 2);

    // The made-up identifier is the only difference.
    let mut other = Vec::new();
    muxer.write_initialization_segment(&mut other).unwrap();
    assert_eq!(other[..156], w[..156]);
    assert_eq!(other[163..], w[163..]);
    let mut third = Vec::new();
    muxer.write_initialization_segment(&mut third).unwrap();
    assert_ne!(other[156..163], third[156..163]);
}

#[test]
fn muxer_frames() {
    let muxer = WebmStreamMuxer::new(48000, 1, 0);
    let mut plain = Vec::new();
    muxer.write_frame(&mut plain, &[1, 2, 3], 40, false).unwrap();
    assert_eq!(plain.len(), 26);
    let mut key = Vec::new();
    muxer.write_frame(&mut key, &[1, 2, 3], 40, true).unwrap();
    assert_eq!(key.len(), 240);
    assert_eq!(key[214..], plain[..]);
    let mut with = Vec::new();
    muxer.write_frame_with(&mut with, &[0; 7], &[1, 2, 3], 40, true);
    assert_eq!(with[163..], key[163..]);
}

#[test]
fn opus_settings() {
    let settings = OpusSettings::new(1, 32).unwrap();
    assert_eq!(settings.sample_rate, 48000);
    // 32 kilobytes per second, in bits per second.
    assert_eq!(settings.bitrate, 262144);
    assert_eq!(OpusSettings::new(2, 0).unwrap().bitrate, 0);
    assert_eq!(
        OpusSettings::new(2, u16::MAX).unwrap().bitrate,
        65535 * 1024 * 8
    );
    assert_eq!(
        OpusSettings::new(3, 32),
        Err(AudioError::InvalidChannels(3))
    );
    assert_eq!(
        OpusSettings::new(0, 32),
        Err(AudioError::InvalidChannels(0))
    );
}

#[test]
fn audio_errors() {
    for (err, text) in [
        (AudioError::UnsupportedCodec(7), "unsupported codec: 7"),
        (AudioError::InvalidChannels(3), "invalid channels: 3"),
        (AudioError::Random, "could not generate random payload"),
        (AudioError::Codec, "could not encode audio data"),
        (AudioError::OutputTooShort, "could not write audio frame"),
        (
            AudioError::PayloadTooLong(65536),
            "payload exceeds maximum size: 65536",
        ),
    ] {
        assert_eq!(err.to_string(), text);
    }
}

#[test]
fn opus_frames() {
    let mut enc = OpusEncoder::new(2, 32, 312).unwrap();
    assert_eq!(enc.internal_delay(), 312);
    assert_eq!(enc.channels(), 2);
    assert_eq!(enc.frame_len_ms(), 40);
    let mut output = vec![0u8; 300];
    assert_eq!(
        enc.encode_frame_with(&[0; 7], 0, Some(&[5; 10]), &mut output),
        Ok((247, true))
    );
    assert_eq!(output[247..], [0; 53]);
    assert_eq!(
        enc.encode_frame(40, Some(&[5; 10]), &mut output),
        Ok((33, false))
    );
    assert_eq!(output[..4], [0x1f, 0x43, 0xb6, 0x75]);
    let mut short = [0u8; 20];
    assert_eq!(
        enc.encode_frame(80, Some(&[5; 10]), &mut short),
        Err(AudioError::OutputTooShort)
    );
    assert_eq!(short[..4], [0x1f, 0x43, 0xb6, 0x75]);
    assert_eq!(
        enc.encode_frame(80, None, &mut short),
        Err(AudioError::Codec)
    );
    // A failure of the codec uses up the keyframe.
    let mut enc = OpusEncoder::new(2, 32, 312).unwrap();
    assert_eq!(
        enc.encode_frame(0, None, &mut output),
        Err(AudioError::Codec)
    );
    assert_eq!(
        enc.encode_frame(0, Some(&[5; 10]), &mut output),
        Ok((33, false))
    );
}

#[test]
fn channels_of_the_track() {
    for channels in [1u8, 2] {
        let enc = OpusEncoder::new(channels, 32, 312).unwrap();
        assert_eq!(enc.channels(), channels);
        let mut w = Vec::new();
        enc.muxer.write_initialization_segment_with(&mut w, &[0; 7]);
        assert_eq!(w[193], channels);
        assert_eq!(w[213], channels);
    }
    for channels in [0u8, 3, 255] {
        assert_eq!(
            OpusEncoder::new(channels, 32, 312),
            Err(AudioError::InvalidChannels(channels))
        );
        assert_eq!(
            Mp3Encoder::new(channels, 128),
            Err(AudioError::InvalidChannels(channels))
        );
    }
}

#[test]
fn frames_make_up_a_file() {
    let mut enc = OpusEncoder::new(1, 32, 0).unwrap();
    let uid = [9; 7];
    let mut file = Vec::new();
    for (packet, timestamp) in [([1u8; 5], 0), ([2; 5], 40), ([3; 5], 80)] {
        let mut output = vec![0u8; enc.max_frame_len()];
        let (n, keyframe) = enc
            .encode_frame_with(&uid, timestamp, Some(&packet), &mut output)
            .unwrap();
        assert_eq!(keyframe, timestamp == 0);
        file.extend_from_slice(&output[..n]);
    }
    let mut expected = Vec::new();
    enc.muxer
        .write_initialization_segment_with(&mut expected, &uid);
    write_cluster(&mut expected, &[1; 5], 0);
    write_cluster(&mut expected, &[2; 5], 40);
    write_cluster(&mut expected, &[3; 5], 80);
    assert_eq!(file, expected);
}

#[test]
fn lame_errors() {
    assert_eq!(check_err(0), Ok(0));
    assert_eq!(check_err(1234), Ok(1234));
    for (num, err, text) in [
        (-1, LameError::Generic, "lame: generic error"),
        (-10, LameError::OutOfMemory, "lame: out of memory"),
        (-11, LameError::BadBitrate, "lame: unsupported bitrate"),
        (-12, LameError::BadSampleRate, "lame: unsupported sample rate"),
        (-13, LameError::Internal, "lame: internal error"),
        (-80, LameError::FrontendRead, "lame: frontend read error"),
        (-81, LameError::FrontendWrite, "lame: frontend write error"),
        (
            -82,
            LameError::FrontendFileTooLarge,
            "lame: frontend file too large",
        ),
        (-2, LameError::Unknown(-2), "lame: unknown error: -2"),
        (
            i32::MIN,
            LameError::Unknown(i32::MIN),
            "lame: unknown error: -2147483648",
        ),
    ] {
        assert_eq!(check_err(num), Err(err));
        assert_eq!(err.to_string(), text);
    }
}

#[test]
fn mp3_format() {
    let enc = Mp3Encoder::new(2, 128).unwrap();
    assert_eq!(enc.sample_rate(), 44100);
    assert_eq!(enc.frame_len_ms(), 40);
    assert_eq!(enc.channels(), 2);
    assert_eq!(enc.internal_delay(), 576);
    assert_eq!(enc.max_frame_len(), 2212200);
    assert_eq!(
        enc.max_frame_len(),
        (1.25 * 40.0 * 44100.0f64) as usize + 7200
    );
    assert_eq!(enc.samples_per_channel(3528), 1764);
    let settings = enc.settings();
    assert_eq!((settings.channels, settings.bitrate, settings.quality), (2, 128, 7));
    let mono = Mp3Encoder::new(1, 64).unwrap();
    assert_eq!(mono.channels(), 1);
    assert_eq!(mono.samples_per_channel(1764), 1764);
    assert_eq!((mono.settings().channels, mono.settings().bitrate), (1, 64));
}

#[test]
fn stream_settings() {
    let opus = StreamSettings::new(2, 0, 32).unwrap();
    assert_eq!(opus.codec, Codec::Opus);
    assert_eq!(opus.codec.number(), 0);
    assert_eq!(opus.sample_rate(), 48000);
    assert_eq!(opus.samples_per_frame(), 3840);
    let mp3 = StreamSettings::new(1, 1, 128).unwrap();
    assert_eq!(mp3.codec, Codec::Mp3);
    assert_eq!(mp3.codec.number(), 1);
    assert_eq!(mp3.sample_rate(), 44100);
    assert_eq!(mp3.samples_per_frame(), 1764);
    assert_eq!(
        StreamSettings::new(3, 0, 32),
        Err(AudioError::InvalidChannels(3))
    );
    for channels in [0u8, 3, 255] {
        assert_eq!(
            StreamSettings::new(channels, 1, 128),
            Err(AudioError::InvalidChannels(channels))
        );
        assert_eq!(
            Stream::new(channels, 1, 128, 576),
            Err(AudioError::InvalidChannels(channels))
        );
    }
    assert_eq!(
        Stream::new(2, 7, 32, 0),
        Err(AudioError::UnsupportedCodec(7))
    );
    assert_eq!(
        StreamSettings::new(2, 2, 32),
        Err(AudioError::UnsupportedCodec(2))
    );
}

fn stream(codec: u16) -> Stream {
    Stream::new(2, codec, 32, 312).unwrap()
}

#[test]
fn timestamps_start_at_zero_and_advance() {
    let mut stream = stream(0);
    assert_eq!(stream.timestamp, 40u64.wrapping_neg());
    stream.read_frame(0);
    assert_eq!(stream.timestamp, 0);
    stream.read_frame(7);
    assert_eq!(stream.timestamp, 40);
    stream.read_frame(1000);
    assert_eq!(stream.timestamp, 1000);
    stream.read_frame(1001);
    assert_eq!(stream.timestamp, 1040);
}

#[test]
fn mp3_frame_messages() {
    let mut stream = stream(1);
    stream.read_frame(0);
    stream.read_frame(0x1_8000_0102);
    assert_eq!(
        stream.encode_frame(Some(&[1, 2, 3])).unwrap(),
        vec![0xf5, 1, 0, 7, 0x80, 0, 1, 2, 1, 2, 3]
    );
    assert_eq!(stream.encode_frame(None), Err(AudioError::Codec));
    assert_eq!(
        stream.encode_frame(Some(&vec![0; 65531])).unwrap().len(),
        65539
    );
    assert_eq!(
        stream.encode_frame(Some(&vec![0; 65532])),
        Err(AudioError::PayloadTooLong(65536))
    );
    assert_eq!(
        stream.encode_frame(Some(&vec![0; 2212193])),
        Err(AudioError::OutputTooShort)
    );
}

#[test]
fn opus_frame_messages() {
    let mut stream = stream(0);
    assert!(stream.needs_track_uid());
    stream.read_frame(0);
    let first = stream.encode_frame(Some(&[7; 100])).unwrap();
    assert_eq!(first.len(), 8 + 214 + 123);
    assert_eq!(first[..8], [0xf5, 1, 1, 0x55, 0x80, 0, 0, 0]);
    assert!(!stream.needs_track_uid());
    stream.read_frame(0);
    let second = stream.encode_frame(Some(&[7; 100])).unwrap();
    assert_eq!(second.len(), 8 + 123);
    assert_eq!(second[..8], [0xf5, 1, 0, 127, 0, 0, 0, 40]);
    assert_eq!(
        stream.encode_frame(Some(&vec![0; 5000])),
        Err(AudioError::OutputTooShort)
    );
    assert!(stream.encode_frame(Some(&vec![0; 4000])).is_ok());
    assert!(matches!(stream.enc, Encoder::Opus(_)));
}

#[test]
fn same_track_same_message() {
    let mut a = stream(0);
    let mut b = stream(0);
    assert_eq!(
        a.encode_frame_with(&[1, 2, 3, 4, 5, 6, 7], Some(&[9])),
        b.encode_frame_with(&[1, 2, 3, 4, 5, 6, 7], Some(&[9]))
    );
}

#[test]
fn answers() {
    assert_eq!(
        answer_message(START_ENCODER, true),
        vec![0xf5, 0, 0, 1, 1]
    );
    assert_eq!(
        answer_message(START_ENCODER, false),
        vec![0xf5, 0, 0, 1, 0]
    );
    assert_eq!(
        answer_message(CONTINUOUS_UPDATES, true),
        vec![0xf5, 2, 0, 1, 1]
    );
}

const CLOSING: [u8; 5] = [0xf5, 2, 0, 1, 0];

fn finishes(action: RunAction) -> bool {
    matches!(action, RunAction::Finish(message) if message == CLOSING)
}

#[test]
fn continuous_updates() {
    let mut stream = stream(1);
    assert!(matches!(stream.run(RunEvent::Wanted(true)), RunAction::Read));
    assert!(matches!(stream.run(RunEvent::Read(0)), RunAction::Reserve));
    assert_eq!(stream.timestamp, 0);
    assert!(matches!(
        stream.run(RunEvent::Reserved(Slot::Free)),
        RunAction::Encode
    ));
    assert!(matches!(
        stream.run(RunEvent::Packet(Some(vec![5]))),
        RunAction::Send(message) if message == [0xf5, 1, 0, 5, 0x80, 0, 0, 0, 5]
    ));
    assert!(matches!(stream.run(RunEvent::Wanted(true)), RunAction::Read));
    assert!(matches!(stream.run(RunEvent::Read(0)), RunAction::Reserve));
    assert_eq!(stream.timestamp, 40);
    assert_eq!(stream.dropped_frames, 0);
    assert!(matches!(
        stream.run(RunEvent::Reserved(Slot::Full)),
        RunAction::Poll
    ));
    assert_eq!(stream.dropped_frames, 1);
    assert!(finishes(stream.run(RunEvent::Wanted(false))));
    assert_eq!(stream.dropped_frames, 1);
}

#[test]
fn updates_end_with_a_message() {
    assert_eq!(closing_message(), CLOSING);
    assert!(finishes(stream(0).run(RunEvent::Wanted(false))));
    assert!(finishes(stream(0).run(RunEvent::ReadFailed)));
    assert!(finishes(stream(0).run(RunEvent::Reserved(Slot::Closed))));
    // The codec has failed.
    assert!(finishes(stream(0).run(RunEvent::Packet(None))));
    // The packet does not fit.
    assert!(finishes(stream(0).run(RunEvent::Packet(Some(vec![0; 5000])))));
    // There is no identifier for the track, which a keyframe needs.
    let mut opus = stream(0);
    assert!(finishes(opus.run_with(RunEvent::Packet(Some(vec![1])), None)));
    assert!(matches!(
        opus.run_with(RunEvent::Packet(Some(vec![1])), None),
        RunAction::Send(_)
    ));
}

#[test]
fn first_update_starts_the_file() {
    let mut opus = stream(0);
    opus.run(RunEvent::Read(0));
    let action = opus.run_with(
        RunEvent::Packet(Some(vec![7; 100])),
        Some(&[1, 2, 3, 4, 5, 6, 7]),
    );
    if let RunAction::Send(message) = action {
        assert_eq!(message.len(), 8 + 214 + 123);
        assert_eq!(message[..8], [0xf5, 1, 1, 0x55, 0x80, 0, 0, 0]);
        assert_eq!(message[8 + 156..8 + 163], [1, 2, 3, 4, 5, 6, 7]);
    } else {
        panic!("no frame");
    }
    opus.run(RunEvent::Read(0));
    assert!(matches!(
        opus.run(RunEvent::Packet(Some(vec![7; 100]))),
        RunAction::Send(message) if message.len() == 8 + 123
    ));
}
