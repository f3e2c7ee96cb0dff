//! Encoded audio frames, and the stream of messages that they are sent in.
//!
//! Currently, Opus (in a WebM streamable container) and MP3 (in an MPEG-1 container) are
//! supported, which should cover all of the major browsers.

use vstd::prelude::*;
use vstd::slice::slice_subrange;

use self::mp3::Mp3Encoder;
use self::opus::OpusEncoder;
use self::webm::{law_cluster_sizes, law_initialization_segment_layout, make_track_uid};
use self::webm::{WebmStreamMuxer, TRACK_UID_LENGTH};
use crate::data::{big_endian, copy_to_start, lemma_big_endian_len, push_slice};
use crate::data::{push_u16, push_u32};
use crate::messages::io::{be16, be32};
use crate::outside::{slice_view, vec_view};
use crate::text::{decimal, push_decimal};

pub mod format;
pub mod mp3;
pub mod opus;
pub mod webm;

verus! {

/// What can go wrong with an audio stream.
#[derive(Clone, Copy, Debug, PartialEq, Eq, Structural)]
pub enum AudioError {
    /// There is no such codec.
    UnsupportedCodec(u16),
    /// The codec does not support that many channels.
    InvalidChannels(u8),
    /// There are no random bytes to be had.
    Random,
    /// The codec could not encode the audio data.
    Codec,
    /// The frame does not fit into the buffer.
    OutputTooShort,
    /// The payload of the message is longer than a message can say.
    PayloadTooLong(usize),
}

impl AudioError {
    /// The text of an error.
    pub open spec fn text(self) -> Seq<char> {
        match self {
            AudioError::UnsupportedCodec(codec) => "unsupported codec: "@ + decimal(codec as nat),
            AudioError::InvalidChannels(channels) => "invalid channels: "@ + decimal(
                channels as nat,
            ),
            AudioError::Random => "could not generate random payload"@,
            AudioError::Codec => "could not encode audio data"@,
            AudioError::OutputTooShort => "could not write audio frame"@,
            AudioError::PayloadTooLong(n) => "payload exceeds maximum size: "@ + decimal(n as nat),
        }
    }

    /// The text of the error.
    pub fn to_string(&self) -> (text: String)
        ensures
            text@ == self.text(),
    {
        match self {
            AudioError::UnsupportedCodec(codec) => {
                let mut text = "unsupported codec: ".to_owned();
                push_decimal(&mut text, *codec as u64);
                text
            },
            AudioError::InvalidChannels(channels) => {
                let mut text = "invalid channels: ".to_owned();
                push_decimal(&mut text, *channels as u64);
                text
            },
            AudioError::Random => "could not generate random payload".to_owned(),
            AudioError::Codec => "could not encode audio data".to_owned(),
            AudioError::OutputTooShort => "could not write audio frame".to_owned(),
            AudioError::PayloadTooLong(n) => {
                let mut text = "payload exceeds maximum size: ".to_owned();
                push_decimal(&mut text, *n as u64);
                text
            },
        }
    }
}

/// The message-type of the messages about audio.
pub const AUDIO_MESSAGE: u8 = 0xf5;

/// The submessage-type of the answer to a request to start or stop the encoder.
pub const START_ENCODER: u8 = 0;

/// The submessage-type of a frame.
pub const FRAME: u8 = 1;

/// The submessage-type of the answer to a request for continuous updates.
pub const CONTINUOUS_UPDATES: u8 = 2;

/// The length of what comes before the data in a message with a frame.
pub const FRAME_HEADER_LENGTH: usize = 8;

/// The length of the timestamp, which counts as payload.
pub const TIMESTAMP_LENGTH: usize = 4;

/// The longest payload of a message.
pub const MAX_PAYLOAD_LENGTH: usize = 0xffff;

/// A codec, in the container that goes with it.
#[derive(Clone, Copy, Debug, PartialEq, Eq, Structural)]
pub enum Codec {
    /// Opus codec, WebM container.
    Opus,
    /// MP3 codec, MPEG-1 container.
    Mp3,
}

impl Codec {
    /// The codec that a number stands for.
    pub open spec fn numbered(codec: u16) -> Option<Codec> {
        if codec == 0 {
            Some(Codec::Opus)
        } else if codec == 1 {
            Some(Codec::Mp3)
        } else {
            None
        }
    }

    /// The number that stands for the codec.
    pub fn number(&self) -> (n: u16)
        ensures
            Codec::numbered(n) == Some(*self),
    {
        match self {
            Codec::Opus => 0,
            Codec::Mp3 => 1,
        }
    }

    /// The preferred sample rate.
    pub open spec fn rate(self) -> u32 {
        match self {
            Codec::Opus => opus::SAMPLE_RATE,
            Codec::Mp3 => mp3::SAMPLE_RATE,
        }
    }

    /// The frame length, in milliseconds.
    pub open spec fn frame_len(self) -> u64 {
        match self {
            Codec::Opus => opus::FRAME_LEN_MS,
            Codec::Mp3 => mp3::FRAME_LEN_MS,
        }
    }

    /// The maximum size of an encoded and contained frame.
    pub open spec fn max_len(self) -> usize {
        match self {
            Codec::Opus => opus::MAX_FRAME_LEN,
            Codec::Mp3 => mp3::MAX_FRAME_LEN,
        }
    }
}

/// What a client asks for when it starts an encoder.
#[derive(Clone, Copy, Debug, PartialEq, Eq, Structural)]
pub struct StreamSettings {
    pub codec: Codec,
    pub channels: u8,
    pub kbps: u16,
}

impl StreamSettings {
    /// The settings that a client asks for: there are two codecs, and each of them can have one or
    /// two channels.
    pub open spec fn requested(channels: u8, codec: u16, kbps: u16) -> Result<
        StreamSettings,
        AudioError,
    > {
        match Codec::numbered(codec) {
            None => Err(AudioError::UnsupportedCodec(codec)),
            Some(c) => if channels == 1 || channels == 2 {
                Ok(StreamSettings { codec: c, channels, kbps })
            } else {
                Err(AudioError::InvalidChannels(channels))
            },
        }
    }

    /// The settings that a client asks for, if they are valid.
    pub fn new(channels: u8, codec: u16, kbps: u16) -> (r: Result<StreamSettings, AudioError>)
        ensures
            r == StreamSettings::requested(channels, codec, kbps),
            r is Ok <==> (codec == 0 || codec == 1) && (channels == 1 || channels == 2),
    {
        let settings = if codec == 0 {
            StreamSettings { codec: Codec::Opus, channels, kbps }
        } else if codec == 1 {
            StreamSettings { codec: Codec::Mp3, channels, kbps }
        } else {
            return Err(AudioError::UnsupportedCodec(codec));
        };
        if channels == 1 || channels == 2 {
            Ok(settings)
        } else {
            Err(AudioError::InvalidChannels(channels))
        }
    }

    /// The sample rate to record with.
    pub fn sample_rate(&self) -> (rate: u32)
        ensures
            rate == self.codec.rate(),
    {
        match self.codec {
            Codec::Opus => opus::SAMPLE_RATE,
            Codec::Mp3 => mp3::SAMPLE_RATE,
        }
    }

    /// The number of samples in a frame, over all channels.
    pub fn samples_per_frame(&self) -> (n: usize)
        ensures
            n == self.channels * self.codec.rate() * self.codec.frame_len() / 1000,
    {
        match self.codec {
            Codec::Opus => {
                assert(self.channels * 48000 * 40 / 1000 == self.channels * 1920);
                self.channels as usize * 1920
            },
            Codec::Mp3 => {
                assert(self.channels * 44100 * 40 / 1000 == self.channels * 1764);
                self.channels as usize * 1764
            },
        }
    }
}

/// An encoder for an audio stream.
#[derive(Clone, Copy, Debug, PartialEq, Eq, Structural)]
pub enum Encoder {
    Opus(OpusEncoder),
    Mp3(Mp3Encoder),
}

impl Encoder {
    /// Whether frames can be encoded.
    pub open spec fn well_formed(self) -> bool {
        match self {
            Encoder::Opus(enc) => enc.well_formed(),
            Encoder::Mp3(enc) => enc.well_formed(),
        }
    }

    /// The codec of the encoder.
    pub open spec fn codec(self) -> Codec {
        match self {
            Encoder::Opus(_) => Codec::Opus,
            Encoder::Mp3(_) => Codec::Mp3,
        }
    }

    /// The encoder after a frame.
    pub open spec fn started(self) -> Encoder {
        match self {
            Encoder::Opus(enc) => Encoder::Opus(enc.started()),
            Encoder::Mp3(enc) => Encoder::Mp3(enc),
        }
    }

    /// Whether the next frame is a keyframe. All MP3 frames have a valid MPEG-1 header.
    pub open spec fn at_keyframe(self) -> bool {
        match self {
            Encoder::Opus(enc) => !enc.wrote_initialization_segment,
            Encoder::Mp3(_) => true,
        }
    }

    /// Whether the next frame comes with the identifier of the track.
    pub open spec fn needs_track_uid(self) -> bool {
        self is Opus && self.at_keyframe()
    }

    /// A packet in its container.
    pub open spec fn contained(self, track_uid: Seq<u8>, packet: Seq<u8>, timestamp: u64) -> Seq<
        u8,
    > {
        match self {
            Encoder::Opus(enc) => enc.contained(track_uid, packet, timestamp),
            Encoder::Mp3(_) => packet,
        }
    }

    /// The frame length, in milliseconds.
    pub fn frame_len_ms(&self) -> (len: u64)
        ensures
            len == self.codec().frame_len(),
    {
        match self {
            Encoder::Opus(enc) => enc.frame_len_ms(),
            Encoder::Mp3(enc) => enc.frame_len_ms(),
        }
    }

    /// The maximum size of an encoded and contained frame.
    pub fn max_frame_len(&self) -> (len: usize)
        ensures
            len == self.codec().max_len(),
    {
        match self {
            Encoder::Opus(enc) => enc.max_frame_len(),
            Encoder::Mp3(enc) => enc.max_frame_len(),
        }
    }
}

/// A message about audio: its type, and a payload behind its length.
pub open spec fn audio_message(submessage: u8, payload: Seq<u8>) -> Seq<u8> {
    seq![AUDIO_MESSAGE, submessage] + big_endian(payload.len() as int, 2) + payload
}

/// An answer to a request: whether it is granted.
pub open spec fn answer(submessage: u8, enabled: bool) -> Seq<u8> {
    audio_message(
        submessage,
        seq![
            if enabled {
                1u8
            } else {
                0u8
            },
        ],
    )
}

/// The message with a frame. The most significant bit of the timestamp marks a keyframe; the others
/// are the lowest ones of the number of milliseconds from the start of the stream.
pub open spec fn frame_message(timestamp: u64, keyframe: bool, data: Seq<u8>) -> Seq<u8> {
    audio_message(FRAME, big_endian(marked_timestamp(timestamp, keyframe), 4) + data)
}

/// A timestamp, with the mark of a keyframe.
pub open spec fn marked_timestamp(timestamp: u64, keyframe: bool) -> int {
    timestamp % 0x8000_0000 + if keyframe {
        0x8000_0000int
    } else {
        0
    }
}

/// A stream that takes encoded audio and generates Replit Audio Server AudioData messages.
#[derive(Clone, Copy, Debug, PartialEq, Eq, Structural)]
pub struct Stream {
    pub enc: Encoder,
    pub timestamp: u64,
    pub dropped_frames: u64,
}

/// The timestamp of a frame, where `before` is the one of the frame before it: later by the length
/// of a frame, unless more time than that has passed since the start of the stream.
pub open spec fn next_timestamp(before: u64, frame_len: u64, elapsed_ms: u64) -> int {
    let next = (before + frame_len) % 0x1_0000_0000_0000_0000;
    if next < elapsed_ms {
        elapsed_ms as int
    } else {
        next
    }
}

impl Stream {
    /// The message for a packet, in the container for the given track. There is no packet if the
    /// codec failed.
    pub open spec fn encoded(self, track_uid: Seq<u8>, packet: Option<Seq<u8>>) -> Result<
        Seq<u8>,
        AudioError,
    > {
        match packet {
            None => Err(AudioError::Codec),
            Some(packet) => {
                let data = self.enc.contained(track_uid, packet, self.timestamp);
                if data.len() > self.enc.codec().max_len() - FRAME_HEADER_LENGTH {
                    Err(AudioError::OutputTooShort)
                } else if data.len() + TIMESTAMP_LENGTH > MAX_PAYLOAD_LENGTH {
                    Err(AudioError::PayloadTooLong((data.len() + TIMESTAMP_LENGTH) as usize))
                } else {
                    Ok(frame_message(self.timestamp, self.enc.at_keyframe(), data))
                }
            },
        }
    }

    /// The stream at its start, for a codec with the given delay.
    pub open spec fn started_with(settings: StreamSettings, internal_delay: usize) -> Stream {
        Stream {
            enc: match settings.codec {
                Codec::Opus => Encoder::Opus(
                    OpusEncoder {
                        muxer: WebmStreamMuxer {
                            sample_rate: opus::SAMPLE_RATE,
                            channels: settings.channels,
                            internal_delay,
                        },
                        wrote_initialization_segment: false,
                    },
                ),
                Codec::Mp3 => Encoder::Mp3(
                    Mp3Encoder { channels: settings.channels, kbps: settings.kbps },
                ),
            },
            timestamp: (0x1_0000_0000_0000_0000 - settings.codec.frame_len()) as u64,
            dropped_frames: 0,
        }
    }

    /// A stream for what a client asks for, and for a codec with the given delay, in samples. Its
    /// first frame is at the start.
    pub fn new(channels: u8, codec: u16, kbps: u16, internal_delay: usize) -> (r: Result<
        Stream,
        AudioError,
    >)
        ensures
            r == (match StreamSettings::requested(channels, codec, kbps) {
                Ok(settings) => Ok(Stream::started_with(settings, internal_delay)),
                Err(e) => Err(e),
            }),
            r is Ok <==> (codec == 0 || codec == 1) && (channels == 1 || channels == 2),
            r matches Ok(stream) ==> stream.enc.well_formed(),
    {
        let settings = StreamSettings::new(channels, codec, kbps)?;
        let enc = match settings.codec {
            Codec::Opus => Encoder::Opus(OpusEncoder::new(channels, kbps, internal_delay)?),
            Codec::Mp3 => Encoder::Mp3(Mp3Encoder::new(channels, kbps)?),
        };
        let timestamp: u64 = 0xffff_ffff_ffff_ffff - (enc.frame_len_ms() - 1);
        Ok(Stream { enc, timestamp, dropped_frames: 0 })
    }

    /// Takes note of a frame that was read when `elapsed_ms` milliseconds had passed since the
    /// start of the stream.
    pub fn read_frame(&mut self, elapsed_ms: u64)
        ensures
            final(self).timestamp == next_timestamp(
                old(self).timestamp,
                old(self).enc.codec().frame_len(),
                elapsed_ms,
            ),
            *final(self) == (Stream { timestamp: final(self).timestamp, ..*old(self) }),
    {
        let next: u64 = self.timestamp.wrapping_add(self.enc.frame_len_ms());
        self.timestamp = if next < elapsed_ms {
            elapsed_ms
        } else {
            next
        };
    }

    /// Makes the message for a packet, in the container for the given track. There is no packet if
    /// the codec failed.
    pub fn encode_frame_with(&mut self, track_uid: &[u8], packet: Option<&[u8]>) -> (r: Result<
        Vec<u8>,
        AudioError,
    >)
        requires
            old(self).enc.well_formed(),
        ensures
            *final(self) == (Stream { enc: old(self).enc.started(), ..*old(self) }),
            match r {
                Ok(message) => old(self).encoded(track_uid@, slice_view(packet)) == Ok::<
                    _,
                    AudioError,
                >(message@),
                Err(e) => old(self).encoded(track_uid@, slice_view(packet)) == Err::<Seq<u8>, _>(e),
            },
    {
        let room: usize = self.enc.max_frame_len() - FRAME_HEADER_LENGTH;
        let mut data: Vec<u8> = vec![0u8;room];
        let (data_length, keyframe): (usize, bool) = match self.enc {
            Encoder::Opus(opus) => {
                let mut enc = opus;
                let r = enc.encode_frame_with(
                    track_uid,
                    self.timestamp,
                    packet,
                    data.as_mut_slice(),
                );
                self.enc = Encoder::Opus(enc);
                r?
            },
            Encoder::Mp3(_) => match packet {
                None => {
                    return Err(AudioError::Codec);
                },
                Some(packet) => {
                    copy_to_start(data.as_mut_slice(), packet);
                    if packet.len() > data.len() {
                        return Err(AudioError::OutputTooShort);
                    }
                    (packet.len(), true)
                },
            },
        };
        let payload_length: usize = data_length + TIMESTAMP_LENGTH;
        if payload_length > MAX_PAYLOAD_LENGTH {
            return Err(AudioError::PayloadTooLong(payload_length));
        }
        let ghost contained = old(self).enc.contained(
            track_uid@,
            slice_view(packet)->0,
            self.timestamp,
        );
        assert(data@.take(data_length as int) =~= contained);
        // The Most Significant Bit marks whether the frame is a keyframe.
        let mut timestamp: u32 = (self.timestamp % 0x8000_0000) as u32;
        if keyframe {
            timestamp = timestamp + 0x8000_0000;
        }
        let mut message: Vec<u8> = Vec::new();
        message.push(AUDIO_MESSAGE);
        message.push(FRAME);
        push_u16(&mut message, payload_length as u16);
        push_u32(&mut message, timestamp);
        push_slice(&mut message, slice_subrange(data.as_slice(), 0, data_length));
        proof {
            lemma_big_endian_len(timestamp as int, 4);
        }
        assert(message@ =~= frame_message(self.timestamp, keyframe, contained));
        Ok(message)
    }

    /// Makes the message for a packet. The identifier of the track is made up where it is needed.
    /// See [`Stream::encode_frame_with`].
    pub fn encode_frame(&mut self, packet: Option<&[u8]>) -> (r: Result<Vec<u8>, AudioError>)
        requires
            old(self).enc.well_formed(),
        ensures
            *final(self) == (Stream { enc: old(self).enc.started(), ..*old(self) }),
            (r matches Err(AudioError::Random)) ==> packet is Some && old(
                self,
            ).enc.needs_track_uid(),
            !(r matches Err(AudioError::Random)) ==> exists|uid: Seq<u8>|
                uid.len() == TRACK_UID_LENGTH && (#[trigger] old(self).encoded(
                    uid,
                    slice_view(packet),
                )) == (match r {
                    Ok(message) => Ok(message@),
                    Err(e) => Err(e),
                }),
    {
        let uid = if packet.is_some() && self.needs_track_uid() {
            match make_track_uid() {
                Ok(uid) => uid,
                Err(e) => {
                    self.skip_keyframe();
                    return Err(e);
                },
            }
        } else {
            vec![0u8;TRACK_UID_LENGTH]
        };
        let r = self.encode_frame_with(uid.as_slice(), packet);
        proof {
            let e = old(self).encoded(uid@, slice_view(packet));
            assert(uid@.len() == TRACK_UID_LENGTH);
        }
        r
    }

    /// Whether the next frame comes with the identifier of the track.
    pub fn needs_track_uid(&self) -> (needed: bool)
        ensures
            needed == self.enc.needs_track_uid(),
    {
        match self.enc {
            Encoder::Opus(enc) => !enc.wrote_initialization_segment,
            Encoder::Mp3(_) => false,
        }
    }
}

/// Makes an answer to a request: whether it is granted.
pub fn answer_message(submessage: u8, enabled: bool) -> (message: Vec<u8>)
    ensures
        message@ == answer(submessage, enabled),
{
    let mut message: Vec<u8> = Vec::new();
    message.push(AUDIO_MESSAGE);
    message.push(submessage);
    push_u16(&mut message, 1);
    message.push(
        if enabled {
            1
        } else {
            0
        },
    );
    assert(message@ =~= answer(submessage, enabled));
    message
}

/// Whether there is room for a message on its way to the client.
#[derive(Clone, Copy, Debug, PartialEq, Eq, Structural)]
pub enum Slot {
    /// There is.
    Free,
    /// There is none at the moment.
    Full,
    /// Nothing can be sent any more.
    Closed,
}

/// The message that ends continuous updates.
pub open spec fn closing() -> Seq<u8> {
    answer(CONTINUOUS_UPDATES, false)
}

/// Makes the message that ends continuous updates.
pub fn closing_message() -> (message: Vec<u8>)
    ensures
        message@ == closing(),
{
    answer_message(CONTINUOUS_UPDATES, false)
}

/// What happens while frames are sent continuously.
#[derive(Debug)]
pub enum RunEvent {
    /// It is known whether the client still wants frames.
    Wanted(bool),
    /// A frame was read when that many milliseconds had passed since the start of the stream.
    Read(u64),
    /// No frame could be read.
    ReadFailed,
    /// It is known whether there is room for a message.
    Reserved(Slot),
    /// The codec has made a packet of the frame, or failed to.
    Packet(Option<Vec<u8>>),
}

/// The mathematical counterpart of [`RunEvent`].
pub enum RunEventView {
    Wanted(bool),
    Read(u64),
    ReadFailed,
    Reserved(Slot),
    Packet(Option<Seq<u8>>),
}

impl View for RunEvent {
    type V = RunEventView;

    open spec fn view(&self) -> RunEventView {
        match self {
            RunEvent::Wanted(wanted) => RunEventView::Wanted(*wanted),
            RunEvent::Read(elapsed_ms) => RunEventView::Read(*elapsed_ms),
            RunEvent::ReadFailed => RunEventView::ReadFailed,
            RunEvent::Reserved(slot) => RunEventView::Reserved(*slot),
            RunEvent::Packet(packet) => RunEventView::Packet(vec_view(*packet)),
        }
    }
}

/// What to do next while frames are sent continuously.
#[derive(Debug)]
pub enum RunAction {
    /// See whether the client still wants frames.
    Poll,
    /// Read a frame.
    Read,
    /// See whether there is room for a message.
    Reserve,
    /// Have the codec make a packet of the frame.
    Encode,
    /// Send the message with the frame to the client, and see whether it still wants frames.
    Send(Vec<u8>),
    /// Send this last message to the client, and stop.
    Finish(Vec<u8>),
}

/// The mathematical counterpart of [`RunAction`].
pub enum RunActionView {
    Poll,
    Read,
    Reserve,
    Encode,
    Send(Seq<u8>),
    Finish(Seq<u8>),
}

impl View for RunAction {
    type V = RunActionView;

    open spec fn view(&self) -> RunActionView {
        match self {
            RunAction::Poll => RunActionView::Poll,
            RunAction::Read => RunActionView::Read,
            RunAction::Reserve => RunActionView::Reserve,
            RunAction::Encode => RunActionView::Encode,
            RunAction::Send(message) => RunActionView::Send(message@),
            RunAction::Finish(message) => RunActionView::Finish(message@),
        }
    }
}

/// The next step of the continuous updates, where `track_uid` is the identifier of the track if one
/// can be made up. The frame is always consumed. That way there are no huge jumps or large number
/// of dropped messages. However the updates end, the client is told so.
pub open spec fn run_step(stream: Stream, event: RunEventView, track_uid: Option<Seq<u8>>) -> (
    Stream,
    RunActionView,
) {
    let finish = RunActionView::Finish(closing());
    match event {
        RunEventView::Wanted(wanted) => (
            stream,
            if wanted {
                RunActionView::Read
            } else {
                finish
            },
        ),
        RunEventView::Read(elapsed_ms) => (
            Stream {
                timestamp: next_timestamp(
                    stream.timestamp,
                    stream.enc.codec().frame_len(),
                    elapsed_ms,
                ) as u64,
                ..stream
            },
            RunActionView::Reserve,
        ),
        RunEventView::ReadFailed => (stream, finish),
        RunEventView::Reserved(Slot::Free) => (stream, RunActionView::Encode),
        RunEventView::Reserved(Slot::Full) => (
            Stream {
                dropped_frames: ((stream.dropped_frames + 1) % 0x1_0000_0000_0000_0000) as u64,
                ..stream
            },
            RunActionView::Poll,
        ),
        RunEventView::Reserved(Slot::Closed) => (stream, finish),
        RunEventView::Packet(packet) => (
            Stream { enc: stream.enc.started(), ..stream },
            match (track_uid, stream.enc.needs_track_uid()) {
                (None, true) => finish,
                (uid, _) => match stream.encoded(
                    match uid {
                        Some(u) => u,
                        None => Seq::empty(),
                    },
                    packet,
                ) {
                    Ok(message) => RunActionView::Send(message),
                    Err(_) => finish,
                },
            },
        ),
    }
}

impl Stream {
    /// Decides what to do next while frames are sent continuously, where `track_uid` is the
    /// identifier of the track if one can be made up.
    pub fn run_with(&mut self, event: RunEvent, track_uid: Option<&[u8]>) -> (action: RunAction)
        requires
            old(self).enc.well_formed(),
        ensures
            final(self).enc.well_formed(),
            (*final(self), action@) == run_step(*old(self), event@, slice_view(track_uid)),
    {
        match event {
            RunEvent::Wanted(wanted) => if wanted {
                RunAction::Read
            } else {
                RunAction::Finish(closing_message())
            },
            RunEvent::Read(elapsed_ms) => {
                self.read_frame(elapsed_ms);
                RunAction::Reserve
            },
            RunEvent::ReadFailed => RunAction::Finish(closing_message()),
            RunEvent::Reserved(slot) => match slot {
                Slot::Free => RunAction::Encode,
                Slot::Full => {
                    self.dropped_frames = self.dropped_frames.wrapping_add(1);
                    RunAction::Poll
                },
                Slot::Closed => RunAction::Finish(closing_message()),
            },
            RunEvent::Packet(packet) => {
                let none: Vec<u8> = Vec::new();
                assert(none@ =~= Seq::<u8>::empty());
                let uid: &[u8] = match track_uid {
                    Some(uid) => uid,
                    None => {
                        if self.needs_track_uid() {
                            self.skip_keyframe();
                            return RunAction::Finish(closing_message());
                        }
                        none.as_slice()
                    },
                };
                let made = match &packet {
                    Some(p) => self.encode_frame_with(uid, Some(p.as_slice())),
                    None => self.encode_frame_with(uid, None),
                };
                match made {
                    Ok(message) => RunAction::Send(message),
                    Err(_) => RunAction::Finish(closing_message()),
                }
            },
        }
    }

    /// Decides what to do next while frames are sent continuously. The identifier of the track is
    /// made up where it is needed. See [`Stream::run_with`].
    pub fn run(&mut self, event: RunEvent) -> (action: RunAction)
        requires
            old(self).enc.well_formed(),
        ensures
            final(self).enc.well_formed(),
            exists|uid: Option<Seq<u8>>|
                (uid matches Some(u) ==> u.len() == TRACK_UID_LENGTH) && (
                *final(self),
                action@,
            ) == #[trigger] run_step(*old(self), event@, uid),
    {
        let encoding = match &event {
            RunEvent::Packet(_) => true,
            _ => false,
        };
        let uid: Option<Vec<u8>> = if encoding && self.needs_track_uid() {
            match make_track_uid() {
                Ok(uid) => Some(uid),
                Err(_) => None,
            }
        } else {
            None
        };
        match &uid {
            Some(u) => self.run_with(event, Some(u.as_slice())),
            None => self.run_with(event, None),
        }
    }

    /// Leaves out the start of the file that comes with the first frame.
    fn skip_keyframe(&mut self)
        ensures
            *final(self) == (Stream { enc: old(self).enc.started(), ..*old(self) }),
    {
        if let Encoder::Opus(opus) = self.enc {
            let mut enc = opus;
            enc.wrote_initialization_segment = true;
            self.enc = Encoder::Opus(enc);
        }
    }
}

/// A message with a frame is 8 bytes longer than the data in it, and its payload is 4 bytes longer,
/// as it says itself. The data is at its end.
pub proof fn law_frame_message_layout(timestamp: u64, keyframe: bool, data: Seq<u8>)
    requires
        data.len() + TIMESTAMP_LENGTH <= MAX_PAYLOAD_LENGTH,
    ensures
        frame_message(timestamp, keyframe, data).len() == data.len() + FRAME_HEADER_LENGTH,
        frame_message(timestamp, keyframe, data)[0] == AUDIO_MESSAGE,
        frame_message(timestamp, keyframe, data)[1] == FRAME,
        be16(frame_message(timestamp, keyframe, data), 2) == data.len() + TIMESTAMP_LENGTH,
        be32(frame_message(timestamp, keyframe, data), 4) == marked_timestamp(timestamp, keyframe),
        frame_message(timestamp, keyframe, data).skip(FRAME_HEADER_LENGTH as int) == data,
{
    let marked = marked_timestamp(timestamp, keyframe);
    let n = data.len() as int + TIMESTAMP_LENGTH;
    lemma_big_endian_len(marked, 4);
    lemma_big_endian_len(n, 2);
    let m = frame_message(timestamp, keyframe, data);
    assert(m.subrange(2, 4) =~= big_endian(n, 2));
    assert(m.subrange(4, 8) =~= big_endian(marked, 4));
    reveal_with_fuel(big_endian, 5);
    assert(m[2] == m.subrange(2, 4)[0] && m[3] == m.subrange(2, 4)[1]);
    assert(m[4] == m.subrange(4, 8)[0] && m[5] == m.subrange(4, 8)[1]);
    assert(m[6] == m.subrange(4, 8)[2] && m[7] == m.subrange(4, 8)[3]);
    assert(m.skip(FRAME_HEADER_LENGTH as int) =~= data);
}

/// The mark of a keyframe and the milliseconds can be told apart again.
pub proof fn law_timestamp_mark(timestamp: u64, keyframe: bool)
    ensures
        0 <= marked_timestamp(timestamp, keyframe) < 0x1_0000_0000,
        keyframe <==> marked_timestamp(timestamp, keyframe) >= 0x8000_0000,
        marked_timestamp(timestamp, keyframe) % 0x8000_0000 == timestamp % 0x8000_0000,
{
}

/// Time does not run backwards: a frame is later than the one before it by at least the length of a
/// frame, and it is not earlier than it was read.
pub proof fn law_timestamps_advance(before: u64, frame_len: u64, elapsed_ms: u64)
    requires
        before + frame_len <= u64::MAX,
    ensures
        next_timestamp(before, frame_len, elapsed_ms) >= before + frame_len,
        next_timestamp(before, frame_len, elapsed_ms) >= elapsed_ms,
{
}

/// The first frame of a stream, which the time is counted from, is at 0.
pub proof fn law_first_timestamp(settings: StreamSettings, internal_delay: usize)
    ensures
        run_step(
            Stream::started_with(settings, internal_delay),
            RunEventView::Read(0),
            None,
        ).0.timestamp == 0,
{
}

/// A packet that the Opus codec makes always fits into a message.
pub proof fn law_opus_packets_fit(stream: Stream, track_uid: Seq<u8>, packet: Seq<u8>)
    requires
        stream.enc is Opus,
        track_uid.len() == TRACK_UID_LENGTH,
        packet.len() <= opus::MAX_PACKET_LEN,
    ensures
        stream.encoded(track_uid, Some(packet)) is Ok,
{
    if let Encoder::Opus(enc) = stream.enc {
        law_initialization_segment_layout(enc.muxer, track_uid);
        law_cluster_sizes(packet, stream.timestamp);
    }
}

/// Only the first frame of an Opus stream is a keyframe; every frame of an MP3 stream is.
pub proof fn law_keyframes(enc: Encoder)
    ensures
        enc.started().at_keyframe() <==> enc is Mp3,
        enc.started().codec() == enc.codec(),
{
}

/// Whether an event is one that an action leads to.
pub open spec fn follows(action: RunActionView, event: RunEventView) -> bool {
    match action {
        RunActionView::Poll => event is Wanted,
        RunActionView::Read => event is Read || event is ReadFailed,
        RunActionView::Reserve => event is Reserved,
        RunActionView::Encode => event is Packet,
        RunActionView::Send(_) => event is Wanted,
        RunActionView::Finish(_) => false,
    }
}

/// The message that an action sends to the client.
pub open spec fn message_of(action: RunActionView) -> Seq<Seq<u8>> {
    match action {
        RunActionView::Send(message) => seq![message],
        RunActionView::Finish(message) => seq![message],
        _ => Seq::empty(),
    }
}

/// The stream after `events`, one after the other, with what there is for the identifier of the
/// track at each of them; what to do next; and all the messages that the client is sent, that one's
/// among them. `None` if an event is not what the action before it leads to.
pub open spec fn run_trace(
    stream: Stream,
    events: Seq<(RunEventView, Option<Seq<u8>>)>,
) -> Option<(Stream, RunActionView, Seq<Seq<u8>>)>
    decreases events.len(),
{
    if events.len() == 0 {
        Some((stream, RunActionView::Poll, Seq::empty()))
    } else {
        match run_trace(stream, events.drop_last()) {
            None => None,
            Some((before, action, sent)) => if follows(action, events.last().0) {
                let (after, next) = run_step(before, events.last().0, events.last().1);
                Some((after, next, sent + message_of(next)))
            } else {
                None
            },
        }
    }
}

/// How many frames were read.
pub open spec fn frames_read(events: Seq<(RunEventView, Option<Seq<u8>>)>) -> int
    decreases events.len(),
{
    if events.len() == 0 {
        0
    } else {
        frames_read(events.drop_last()) + if events.last().0 is Read {
            1int
        } else {
            0
        }
    }
}

/// Whether a message holds a frame.
pub open spec fn is_frame(message: Seq<u8>) -> bool {
    message.len() >= 2 && message[0] == AUDIO_MESSAGE && message[1] == FRAME
}

/// While frames are sent continuously, every frame that was read has been sent or is counted as
/// dropped, but for the one at hand.
pub proof fn law_frames_are_sent_or_dropped(
    stream: Stream,
    events: Seq<(RunEventView, Option<Seq<u8>>)>,
)
    requires
        stream.dropped_frames + events.len() <= u64::MAX,
    ensures
        run_trace(stream, events) matches Some((after, action, sent)) ==> {
            &&& stream.dropped_frames <= after.dropped_frames <= stream.dropped_frames
                + events.len()
            &&& !(action is Finish) ==> frames_read(events) == sent.len() + after.dropped_frames
                - stream.dropped_frames + if action is Reserve || action is Encode {
                1int
            } else {
                0
            }
        },
    decreases events.len(),
{
    if events.len() > 0 {
        law_frames_are_sent_or_dropped(stream, events.drop_last());
    }
}

/// Whatever ends the continuous updates, the client is sent nothing but frames, and the closing
/// message once, after the last of them. Nothing follows it.
pub proof fn law_closing_message_comes_last(
    stream: Stream,
    events: Seq<(RunEventView, Option<Seq<u8>>)>,
)
    ensures
        run_trace(stream, events) matches Some((_, action, sent)) ==> {
            &&& action is Finish ==> {
                &&& sent.len() > 0
                &&& sent.last() == closing()
                &&& forall|i: int| 0 <= i < sent.len() - 1 ==> is_frame(#[trigger] sent[i])
                &&& forall|event: RunEventView| !follows(action, event)
            }
            &&& !(action is Finish) ==> forall|i: int|
                0 <= i < sent.len() ==> is_frame(#[trigger] sent[i])
        },
    decreases events.len(),
{
    if events.len() > 0 {
        law_closing_message_comes_last(stream, events.drop_last());
        if let Some((before, action, _)) = run_trace(stream, events.drop_last()) {
            if follows(action, events.last().0) {
                let (_, next) = run_step(before, events.last().0, events.last().1);
                if let RunActionView::Send(message) = next {
                    assert(message[0] == AUDIO_MESSAGE && message[1] == FRAME);
                }
            }
        }
    }
}

} // verus!
