//! A Remote Framebuffer connection that can inject audio messages into the stream.
//!
//! What is decided here is what to do with the messages; sending them and recording audio is up to
//! the caller.

use vstd::prelude::*;
use vstd::slice::{slice_subrange, slice_to_vec};
use vstd::string::StringExecFns;

use crate::audio::{answer, answer_message, is_frame, law_closing_message_comes_last, run_trace};
use crate::audio::{Codec, RunEventView, Stream, StreamSettings};
use crate::audio::{CONTINUOUS_UPDATES, START_ENCODER};
use crate::auth::passthrough::{client_payload, frame_error};
use crate::auth::{ClientEvent, ClientEventView, FrameError};
use crate::messages::client::{client_message, encoding_at, encodings, lists_encodings};
use crate::messages::io::{be16, be_i32, Cursor};
use crate::messages::server::server_message;
use crate::messages::stream::{client_messages, next_client_message};
use crate::messages::stream::{law_client_message_is_final, law_client_message_is_prefix};
use crate::messages::stream::{law_server_message_is_final, law_server_message_is_prefix};
use crate::messages::stream::{law_server_stream_is_conserved, next_server_message};
use crate::messages::stream::{server_messages, server_payloads, server_rest};
use crate::messages::{client, server, Error, ErrorView, PixelFormat};
use crate::outside::{buffer_advance, buffer_append, buffer_bytes, buffer_with_capacity, buffered};

verus! {

/// The Replit Audio pseudo-encoding.
pub const REPLIT_AUDIO_ENCODING: i32 = 0x52706c41;

/// The framebuffer update that tells a client that there is audio to be had: a pseudo-rectangle
/// with the version and the codecs.
pub const AUDIO_SUPPORT: [u8; 24] = [
    0x00, // message-type
    0x00, // padding
    0x00,
    0x01, // number-of-rectangles
    0x00,
    0x00, // x-position
    0x00,
    0x00, // y-position
    0x00,
    0x00, // width
    0x00,
    0x00, // height
    0x52,
    0x70,
    0x6c,
    0x41, // Replit Audio Pseudo-encoding
    0x00,
    0x00, // version
    0x00,
    0x02, // number-of-codecs
    0x00,
    0x00, // Opus codec, WebM container
    0x00,
    0x01, // MP3 codec, MPEG-1 container
];

/// The shared state between the RFB client and server.
#[derive(Clone, Copy, Debug, PartialEq, Eq, Structural)]
pub struct RfbConnectionState {
    pub bytes_per_pixel: usize,
}

/// A Remote Framebuffer connection between a TCP server and a Websocket client.
#[derive(Clone, Copy, Debug, PartialEq, Eq, Structural)]
pub struct RfbConnection {
    pub connection_state: RfbConnectionState,
}

/// What is wrong with the ClientInit handshake.
#[derive(Debug)]
pub struct ClientInitError {
    pub frame: FrameError,
}

impl ClientInitError {
    /// The text of an error.
    pub open spec fn text(self) -> Seq<char> {
        self.frame@.text("bad ClientInit handshake"@, "missing ClientInit handshake"@)
    }

    /// The text of the error.
    pub fn to_string(&self) -> (text: String)
        ensures
            text@ == self.text(),
    {
        self.frame.text("bad ClientInit handshake", "missing ClientInit handshake")
    }
}

/// The number of bits in a pixel, from a ServerInit message that may have been cut short.
pub open spec fn server_init_bits(data: Seq<u8>) -> u8 {
    if data.len() > 4 {
        data[4]
    } else {
        0
    }
}

impl RfbConnection {
    /// Takes what came of waiting for the client's ClientInit message. It goes to the server as it
    /// is.
    pub fn client_init(event: ClientEvent) -> (r: Result<Vec<u8>, ClientInitError>)
        ensures
            match r {
                Ok(payload) => event@ == ClientEventView::Binary(payload@),
                Err(e) => !(event@ is Binary) && e.frame@ == frame_error(event@),
            },
    {
        match client_payload(event) {
            Ok(payload) => Ok(payload),
            Err(frame) => Err(ClientInitError { frame }),
        }
    }

    /// Takes what one read of the server's ServerInit message gave. It goes to the client as it is.
    pub fn new(server_init: &[u8]) -> (conn: RfbConnection)
        ensures
            conn.connection_state.bytes_per_pixel == server_init_bits(server_init@) / 8,
    {
        // A message that was cut short counts as if there were zeroes behind it.
        let mut format: Vec<u8> = Vec::new();
        while format.len() < 16
            invariant
                format@.len() <= 16,
                forall|i: int|
                    0 <= i < format@.len() ==> #[trigger] format@[i] == (if 4 + i
                        < server_init@.len() {
                        server_init@[4 + i]
                    } else {
                        0u8
                    }),
            decreases 16 - format@.len(),
        {
            let i: usize = 4 + format.len();
            if i < server_init.len() {
                format.push(server_init[i]);
            } else {
                format.push(0);
            }
        }
        let pixel_format = PixelFormat::new(format.as_slice());
        RfbConnection {
            connection_state: RfbConnectionState {
                bytes_per_pixel: (pixel_format.bits_per_pixel / 8) as usize,
            },
        }
    }

    /// The two halves of the connection.
    pub fn split(&self) -> (r: (ReadHalf, WriteHalf))
        ensures
            r.0@ == Seq::<u8>::empty(),
            r.1@ == (WriteState {
                buffer: Seq::empty(),
                audio: AudioState { encoder: false, streaming: false },
            }),
    {
        (
            ReadHalf { buf: buffer_with_capacity(4096) },
            WriteHalf {
                buf: buffer_with_capacity(1024),
                audio: AudioState { encoder: false, streaming: false },
            },
        )
    }
}

/// The readable half of [`RfbConnection::split`]. Represents the server-to-client half.
pub struct ReadHalf {
    pub buf: bytes::BytesMut,
}

impl View for ReadHalf {
    type V = Seq<u8>;

    open spec fn view(&self) -> Seq<u8> {
        buffered(self.buf)
    }
}

/// What came of reading from the server.
#[derive(Clone, Copy, Debug, PartialEq, Eq, Structural)]
pub enum Received {
    /// There is more data than before.
    Data,
    /// The server closed the connection between two messages.
    Closed,
    /// The server closed the connection in the middle of a message.
    ResetByPeer,
}

/// What one read from the server comes to.
pub open spec fn read_outcome(buffer: Seq<u8>, data: Seq<u8>) -> Received {
    if data.len() > 0 {
        Received::Data
    } else if buffer.len() == 0 {
        Received::Closed
    } else {
        Received::ResetByPeer
    }
}

fn room_left(buffer: &bytes::BytesMut, n: usize) -> (room: bool)
    ensures
        room == (buffered(*buffer).len() + n <= isize::MAX),
{
    let held: usize = buffer_bytes(buffer).len();
    let limit: usize = isize::MAX as usize;
    held <= limit && n <= limit - held
}

impl ReadHalf {
    /// Takes the next message off what has been received. `Ok(None)` if it is not complete yet.
    pub fn read_server_message(&mut self, bytes_per_pixel: usize) -> (r: Result<
        Option<server::Message>,
        Error,
    >)
        ensures
            match r {
                Ok(Some(message)) => server_message(old(self)@, bytes_per_pixel as int) == Ok::<
                    _,
                    ErrorView,
                >(message@) && final(self)@ == old(self)@.skip(message@.payload().len() as int),
                Ok(None) => server_message(old(self)@, bytes_per_pixel as int) == Err::<
                    server::MessageView,
                    _,
                >(ErrorView::Incomplete) && final(self)@ == old(self)@,
                Err(e) => server_message(old(self)@, bytes_per_pixel as int) == Err::<
                    server::MessageView,
                    _,
                >(e@) && !(e is Incomplete) && final(self)@ == old(self)@,
            },
    {
        let mut cur = Cursor::new(buffer_bytes(&self.buf));
        match server::Message::parse(&mut cur, bytes_per_pixel) {
            Ok(message) => {
                proof {
                    law_server_message_is_prefix(buffered(self.buf), bytes_per_pixel as int);
                }
                let n: usize = message.len();
                buffer_advance(&mut self.buf, n);
                assert(self@ =~= old(self)@.skip(n as int));
                Ok(Some(message))
            },
            Err(Error::Incomplete) => Ok(None),
            Err(e) => Err(e),
        }
    }

    /// Whether there is room for `n` more bytes.
    pub fn has_room(&self, n: usize) -> (room: bool)
        ensures
            room == (self@.len() + n <= isize::MAX),
    {
        room_left(&self.buf, n)
    }

    /// Takes what one read from the server gave. No data means that the server closed the
    /// connection. For this to be a clean shutdown, there should be no message under way.
    pub fn receive(&mut self, data: &[u8]) -> (r: Received)
        requires
            old(self)@.len() + data@.len() <= isize::MAX,
        ensures
            final(self)@ == old(self)@ + data@,
            r == read_outcome(old(self)@, data@),
    {
        if data.len() == 0 {
            assert(self@ =~= old(self)@ + data@);
            if buffer_bytes(&self.buf).len() == 0 {
                return Received::Closed;
            }
            return Received::ResetByPeer;
        }
        buffer_append(&mut self.buf, data);
        Received::Data
    }
}

/// How reading from the server ends.
pub enum StreamEnd {
    /// The server closed the connection between two messages.
    Closed,
    /// The server closed the connection in the middle of a message.
    ResetByPeer,
    /// The server has sent something that is not a message.
    Failed(ErrorView),
}

/// How reading ends where `rest` is all that there still is, and does not start with a whole
/// message.
pub open spec fn end_of(rest: Seq<u8>, bytes_per_pixel: int) -> StreamEnd {
    match server_message(rest, bytes_per_pixel) {
        Err(ErrorView::Other(reason)) => StreamEnd::Failed(ErrorView::Other(reason)),
        _ => if rest.len() == 0 {
            StreamEnd::Closed
        } else {
            StreamEnd::ResetByPeer
        },
    }
}

/// The messages that come of reading until it ends, and how it ends: messages are taken off the
/// buffer, as [`ReadHalf::read_server_message`] does it, and whenever there is no whole one,
/// another read takes the next of `reads`, as [`ReadHalf::receive`] does it. Behind the last one, a
/// read gives nothing.
pub open spec fn read_until_end(
    buffer: Seq<u8>,
    reads: Seq<Seq<u8>>,
    bytes_per_pixel: int,
) -> (Seq<server::MessageView>, StreamEnd)
    decreases reads.len(), buffer.len(),
{
    match server_message(buffer, bytes_per_pixel) {
        Ok(message) => {
            let n = message.payload().len() as int;
            if 0 < n <= buffer.len() {
                let (more, end) = read_until_end(buffer.skip(n), reads, bytes_per_pixel);
                (seq![message] + more, end)
            } else {
                // There are no such messages.
                (Seq::empty(), StreamEnd::ResetByPeer)
            }
        },
        Err(ErrorView::Other(reason)) => (
            Seq::empty(),
            StreamEnd::Failed(ErrorView::Other(reason)),
        ),
        Err(ErrorView::Incomplete) => {
            let data = if reads.len() > 0 {
                reads[0]
            } else {
                Seq::empty()
            };
            match read_outcome(buffer, data) {
                Received::Data => if reads.len() > 0 {
                    read_until_end(buffer + data, reads.drop_first(), bytes_per_pixel)
                } else {
                    (Seq::empty(), StreamEnd::Closed)
                },
                Received::Closed => (Seq::empty(), StreamEnd::Closed),
                Received::ResetByPeer => (Seq::empty(), StreamEnd::ResetByPeer),
            }
        },
    }
}

/// All that was read, one read after the other.
pub open spec fn joined(reads: Seq<Seq<u8>>) -> Seq<u8>
    decreases reads.len(),
{
    if reads.len() == 0 {
        Seq::empty()
    } else {
        reads[0] + joined(reads.drop_first())
    }
}

proof fn lemma_read_until_end(buffer: Seq<u8>, reads: Seq<Seq<u8>>, bytes_per_pixel: int)
    requires
        0 <= bytes_per_pixel,
        forall|i: int| 0 <= i < reads.len() ==> (#[trigger] reads[i]).len() > 0,
    ensures
        ({
            let all = buffer + joined(reads);
            read_until_end(buffer, reads, bytes_per_pixel) == (
                server_messages(all, bytes_per_pixel),
                end_of(server_rest(all, bytes_per_pixel), bytes_per_pixel),
            )
        }),
    decreases reads.len(), buffer.len(),
{
    let later = joined(reads);
    let all = buffer + later;
    reveal(next_server_message);
    law_server_message_is_prefix(buffer, bytes_per_pixel);
    law_server_message_is_final(buffer, later, bytes_per_pixel);
    match server_message(buffer, bytes_per_pixel) {
        Ok(message) => {
            let n = message.payload().len() as int;
            let rest = buffer.skip(n);
            lemma_read_until_end(rest, reads, bytes_per_pixel);
            assert(all.subrange(n, all.len() as int) =~= rest + later);
        },
        Err(ErrorView::Other(_)) => {},
        Err(ErrorView::Incomplete) => {
            if reads.len() > 0 {
                let data = reads[0];
                let others = reads.drop_first();
                assert forall|i: int| 0 <= i < others.len() implies (
                #[trigger] others[i]).len() > 0 by {
                    assert(others[i] == reads[i + 1]);
                }
                lemma_read_until_end(buffer + data, others, bytes_per_pixel);
                assert((buffer + data) + joined(others) =~= all);
            } else {
                assert(all =~= buffer);
            }
        },
    }
}

/// As long as the pixel format stays, the reads in which the server's stream arrives do not matter,
/// neither to the messages nor to how reading ends. The messages are those at the start of the
/// stream, whole and in order. They make up all of it exactly if reading ends with the connection
/// closed; otherwise what is left is the start of a message, or not a message at all.
pub proof fn law_reading_ends_as_the_stream_does(reads: Seq<Seq<u8>>, bytes_per_pixel: int)
    requires
        0 <= bytes_per_pixel,
        forall|i: int| 0 <= i < reads.len() ==> (#[trigger] reads[i]).len() > 0,
    ensures
        ({
            let stream = joined(reads);
            let rest = server_rest(stream, bytes_per_pixel);
            let (messages, end) = read_until_end(Seq::empty(), reads, bytes_per_pixel);
            &&& messages == server_messages(stream, bytes_per_pixel)
            &&& server_payloads(messages) + rest == stream
            &&& end is Closed <==> server_payloads(messages) == stream
            &&& end is Closed <==> rest.len() == 0
            &&& end is ResetByPeer <==> rest.len() > 0 && server_message(rest, bytes_per_pixel)
                == Err::<server::MessageView, _>(ErrorView::Incomplete)
            &&& end matches StreamEnd::Failed(e) ==> !(e is Incomplete) && server_message(
                rest,
                bytes_per_pixel,
            ) == Err::<server::MessageView, _>(e)
        }),
{
    let stream = joined(reads);
    lemma_read_until_end(Seq::empty(), reads, bytes_per_pixel);
    assert(Seq::<u8>::empty() + stream =~= stream);
    law_server_stream_is_conserved(stream, bytes_per_pixel);
    lemma_rest_is_no_message(stream, bytes_per_pixel);
    let payloads = server_payloads(server_messages(stream, bytes_per_pixel));
    let rest = server_rest(stream, bytes_per_pixel);
    assert(payloads.len() + rest.len() == stream.len());
    if rest.len() == 0 {
        assert(payloads + rest =~= payloads);
    }
}

proof fn lemma_rest_is_no_message(s: Seq<u8>, bytes_per_pixel: int)
    requires
        0 <= bytes_per_pixel,
    ensures
        server_message(server_rest(s, bytes_per_pixel), bytes_per_pixel) is Err,
    decreases s.len(),
{
    reveal(next_server_message);
    law_server_message_is_prefix(s, bytes_per_pixel);
    if let Ok(message) = server_message(s, bytes_per_pixel) {
        let n = message.payload().len() as int;
        lemma_rest_is_no_message(s.subrange(n, s.len() as int), bytes_per_pixel);
    }
}

/// What there is to the audio of a connection.
#[derive(Clone, Copy, Debug, PartialEq, Eq, Structural)]
pub struct AudioState {
    /// An encoder has been started, and its frames are not being sent continuously yet.
    pub encoder: bool,
    /// Frames are being sent continuously.
    pub streaming: bool,
}

/// The state of a [`WriteHalf`]: what the client has sent that is not a whole message yet, and the
/// audio.
pub struct WriteState {
    pub buffer: Seq<u8>,
    pub audio: AudioState,
}

/// The writable half of [`RfbConnection::split`]. Represents the client-to-server half.
pub struct WriteHalf {
    pub buf: bytes::BytesMut,
    pub audio: AudioState,
}

impl View for WriteHalf {
    type V = WriteState;

    open spec fn view(&self) -> WriteState {
        WriteState { buffer: buffered(self.buf), audio: self.audio }
    }
}

/// Something to do about a message of the client.
#[derive(Debug)]
pub enum Action {
    /// Send data to the client.
    ToClient(Vec<u8>),
    /// Send data to the server.
    ToServer(Vec<u8>),
    /// Take note of the number of bytes in a pixel.
    SetBytesPerPixel(usize),
    /// Stop sending frames continuously. This is over when the message that ends them has been
    /// sent.
    StopAudio,
    /// Drop the encoder whose frames are not being sent continuously.
    DropEncoder,
    /// Start an encoder with these settings, in place of the one that there may be, and report with
    /// [`WriteHalf::encoder_started`].
    StartEncoder(StreamSettings),
    /// Send the frames of the encoder continuously, in place of those that are being sent.
    RunAudio,
    /// Send one frame of the encoder.
    SendFrame,
}

/// The mathematical counterpart of [`Action`].
pub enum ActionView {
    ToClient(Seq<u8>),
    ToServer(Seq<u8>),
    SetBytesPerPixel(int),
    StopAudio,
    DropEncoder,
    StartEncoder(StreamSettings),
    RunAudio,
    SendFrame,
}

impl View for Action {
    type V = ActionView;

    open spec fn view(&self) -> ActionView {
        match self {
            Action::ToClient(data) => ActionView::ToClient(data@),
            Action::ToServer(data) => ActionView::ToServer(data@),
            Action::SetBytesPerPixel(n) => ActionView::SetBytesPerPixel(*n as int),
            Action::StopAudio => ActionView::StopAudio,
            Action::DropEncoder => ActionView::DropEncoder,
            Action::StartEncoder(settings) => ActionView::StartEncoder(*settings),
            Action::RunAudio => ActionView::RunAudio,
            Action::SendFrame => ActionView::SendFrame,
        }
    }
}

/// The views of actions.
pub open spec fn action_views(actions: Seq<Action>) -> Seq<ActionView> {
    Seq::new(actions.len(), |i: int| actions[i]@)
}

/// One announcement of audio for each time that the pseudo-encoding is listed.
pub open spec fn announcements(numbers: Seq<int>) -> Seq<ActionView>
    decreases numbers.len(),
{
    if numbers.len() == 0 {
        Seq::empty()
    } else if numbers.last() == REPLIT_AUDIO_ENCODING {
        announcements(numbers.drop_last()).push(ActionView::ToClient(AUDIO_SUPPORT@))
    } else {
        announcements(numbers.drop_last())
    }
}

/// What to do about a message of the client, and the audio after it.
pub open spec fn handled(audio: AudioState, message: client::MessageView) -> (
    AudioState,
    Seq<ActionView>,
) {
    match message {
        client::MessageView::ReplitClientAudioStartEncoder(_, enabled, channels, codec, kbps) =>
            if !enabled {
                (
                    AudioState { encoder: false, streaming: false },
                    seq![
                        ActionView::StopAudio,
                        ActionView::DropEncoder,
                        ActionView::ToClient(answer(START_ENCODER, false)),
                    ],
                )
            } else {
                match StreamSettings::requested(channels, codec, kbps) {
                    Ok(settings) => (audio, seq![ActionView::StartEncoder(settings)]),
                    Err(_) => (audio, seq![ActionView::ToClient(answer(START_ENCODER, false))]),
                }
            },
        client::MessageView::ReplitClientAudioFrameRequest(payload) => (
            audio,
            if audio.encoder {
                seq![ActionView::SendFrame]
            } else if audio.streaming {
                Seq::empty()
            } else {
                seq![ActionView::ToServer(payload)]
            },
        ),
        client::MessageView::ReplitClientAudioStartContinuousUpdates(_) => if audio.encoder {
            (
                AudioState { encoder: false, streaming: true },
                seq![
                    ActionView::ToClient(answer(CONTINUOUS_UPDATES, true)),
                    ActionView::RunAudio,
                ],
            )
        } else {
            (audio, seq![ActionView::ToClient(answer(CONTINUOUS_UPDATES, false))])
        },
        client::MessageView::SetEncodings(payload) => (
            audio,
            announcements(encodings(payload)).push(ActionView::ToServer(payload)),
        ),
        client::MessageView::SetPixelFormat(payload) => (
            audio,
            seq![
                ActionView::SetBytesPerPixel(payload[4] as int / 8),
                ActionView::ToServer(payload),
            ],
        ),
        _ => (audio, seq![ActionView::ToServer(message.payload())]),
    }
}

/// What to do about the outcome of starting an encoder, and the audio after it. An encoder that
/// could not be started leaves the one that there was.
pub open spec fn started(audio: AudioState, success: bool) -> (AudioState, Seq<ActionView>) {
    (
        if success {
            AudioState { encoder: true, ..audio }
        } else {
            audio
        },
        seq![ActionView::ToClient(answer(START_ENCODER, success))],
    )
}

/// The audio once the continuous updates have ended. An encoder that was started meanwhile is still
/// there.
pub open spec fn ended(audio: AudioState) -> AudioState {
    AudioState { streaming: false, ..audio }
}

/// What there is to wait for once all that can be done about the client's data has been decided.
#[derive(Debug)]
pub enum WriteNext {
    /// More data of the client.
    Waiting,
    /// The outcome of [`Action::StartEncoder`], which is the last of the actions.
    EncoderPending,
    /// Nothing: the client has sent something that is not a message.
    Failed(Error),
}

/// The mathematical counterpart of [`WriteNext`].
pub enum WriteNextView {
    Waiting,
    EncoderPending,
    Failed(ErrorView),
}

impl View for WriteNext {
    type V = WriteNextView;

    open spec fn view(&self) -> WriteNextView {
        match self {
            WriteNext::Waiting => WriteNextView::Waiting,
            WriteNext::EncoderPending => WriteNextView::EncoderPending,
            WriteNext::Failed(e) => WriteNextView::Failed(e@),
        }
    }
}

/// What to do about data of the client, in this order, and what to wait for after that.
#[derive(Debug)]
pub struct Written {
    pub actions: Vec<Action>,
    pub next: WriteNext,
}

/// Whether a message starts an encoder, with settings that are valid.
pub open spec fn starts_encoder(message: client::MessageView) -> bool {
    message matches client::MessageView::ReplitClientAudioStartEncoder(
        _,
        enabled,
        channels,
        codec,
        kbps,
    ) && enabled && StreamSettings::requested(channels, codec, kbps) is Ok
}

/// What is left, what to do and what to wait for, once the messages at the start of the buffer have
/// been handled one after the other, up to one that starts an encoder.
pub open spec fn drained(state: WriteState) -> (WriteState, Seq<ActionView>, WriteNextView)
    decreases state.buffer.len(),
{
    match client_message(state.buffer) {
        Err(ErrorView::Incomplete) => (state, Seq::empty(), WriteNextView::Waiting),
        Err(e) => (state, Seq::empty(), WriteNextView::Failed(e)),
        Ok(message) => {
            let n = message.payload().len() as int;
            let (audio, actions) = handled(state.audio, message);
            let rest = WriteState { buffer: state.buffer.skip(n), audio };
            if starts_encoder(message) {
                (rest, actions, WriteNextView::EncoderPending)
            } else if 0 < n <= state.buffer.len() {
                let (after, more, next) = drained(rest);
                (after, actions + more, next)
            } else {
                // There are no such messages.
                (rest, actions, WriteNextView::Waiting)
            }
        },
    }
}

/// Whether a message is long enough to hold what its kind says. Every message that was parsed is.
pub open spec fn complete(message: client::MessageView) -> bool {
    match message {
        client::MessageView::SetEncodings(payload) => lists_encodings(payload),
        client::MessageView::SetPixelFormat(payload) => payload.len() >= 20,
        _ => true,
    }
}

fn announce(payload: &Vec<u8>) -> (actions: Vec<Action>)
    requires
        lists_encodings(payload@),
    ensures
        action_views(actions@) == announcements(encodings(payload@)),
{
    let mut actions: Vec<Action> = Vec::new();
    let mut i: usize = 4;
    let ghost numbers = encodings(payload@);
    assert(numbers.take(0) =~= Seq::<int>::empty());
    assert(action_views(actions@) =~= Seq::<ActionView>::empty());
    while i < payload.len()
        invariant
            lists_encodings(payload@),
            4 <= i <= payload@.len(),
            i % 4 == 0,
            numbers == encodings(payload@),
            action_views(actions@) == announcements(numbers.take((i - 4) / 4)),
        decreases payload@.len() - i,
    {
        let ghost k = (i - 4) / 4;
        assert(numbers.take(k + 1).drop_last() =~= numbers.take(k));
        assert(numbers[k] == be_i32(payload@, 4 + 4 * k));
        if encoding_at(payload.as_slice(), i) == REPLIT_AUDIO_ENCODING {
            let ghost before = action_views(actions@);
            actions.push(Action::ToClient(slice_to_vec(AUDIO_SUPPORT.as_slice())));
            assert(action_views(actions@) =~= before.push(ActionView::ToClient(AUDIO_SUPPORT@)));
        }
        i = i + 4;
    }
    assert(numbers.take(numbers.len() as int) =~= numbers);
    actions
}

impl WriteHalf {
    /// Whether there is room for `n` more bytes.
    pub fn has_room(&self, n: usize) -> (room: bool)
        ensures
            room == (self@.buffer.len() + n <= isize::MAX),
    {
        room_left(&self.buf, n)
    }

    /// Takes the next message off what the client has sent.
    pub fn read_client_message(&mut self) -> (r: Result<client::Message, Error>)
        ensures
            final(self)@.audio == old(self)@.audio,
            match r {
                Ok(message) => client_message(old(self)@.buffer) == Ok::<_, ErrorView>(message@)
                    && final(self)@.buffer == old(self)@.buffer.skip(
                    message@.payload().len() as int,
                ) && complete(message@),
                Err(e) => client_message(old(self)@.buffer) == Err::<client::MessageView, _>(e@)
                    && final(self)@.buffer == old(self)@.buffer,
            },
    {
        let mut cur = Cursor::new(buffer_bytes(&self.buf));
        match client::Message::parse(&mut cur) {
            Ok(message) => {
                proof {
                    law_client_message_is_prefix(buffered(self.buf));
                }
                let n: usize = message.len();
                buffer_advance(&mut self.buf, n);
                assert(self@.buffer =~= old(self)@.buffer.skip(n as int));
                Ok(message)
            },
            Err(e) => Err(e),
        }
    }

    /// Decides what to do about a message of the client, in this order.
    pub fn handle(&mut self, message: client::Message) -> (actions: Vec<Action>)
        requires
            complete(message@),
        ensures
            final(self)@.buffer == old(self)@.buffer,
            (final(self)@.audio, action_views(actions@)) == handled(old(self)@.audio, message@),
    {
        let mut actions: Vec<Action> = Vec::new();
        match message {
            client::Message::ReplitClientAudioStartEncoder(_, enabled, channels, codec, kbps) => {
                if enabled {
                    match StreamSettings::new(channels, codec, kbps) {
                        Ok(settings) => {
                            actions.push(Action::StartEncoder(settings));
                        },
                        Err(_) => {
                            actions.push(Action::ToClient(answer_message(START_ENCODER, false)));
                        },
                    }
                } else {
                    self.audio = AudioState { encoder: false, streaming: false };
                    actions.push(Action::StopAudio);
                    actions.push(Action::DropEncoder);
                    actions.push(Action::ToClient(answer_message(START_ENCODER, false)));
                }
            },
            client::Message::ReplitClientAudioFrameRequest(payload) => {
                if self.audio.encoder {
                    actions.push(Action::SendFrame);
                } else if !self.audio.streaming {
                    actions.push(Action::ToServer(payload));
                }
            },
            client::Message::ReplitClientAudioStartContinuousUpdates(_) => {
                if self.audio.encoder {
                    self.audio = AudioState { encoder: false, streaming: true };
                    actions.push(Action::ToClient(answer_message(CONTINUOUS_UPDATES, true)));
                    actions.push(Action::RunAudio);
                } else {
                    actions.push(Action::ToClient(answer_message(CONTINUOUS_UPDATES, false)));
                }
            },
            client::Message::SetEncodings(payload) => {
                actions = announce(&payload);
                actions.push(Action::ToServer(payload));
            },
            client::Message::SetPixelFormat(payload) => {
                let pixel_format = PixelFormat::new(slice_subrange(payload.as_slice(), 4, 20));
                actions.push(
                    Action::SetBytesPerPixel((pixel_format.bits_per_pixel / 8) as usize),
                );
                actions.push(Action::ToServer(payload));
            },
            message => {
                actions.push(Action::ToServer(message.into_data()));
            },
        }
        assert(action_views(actions@) =~= handled(old(self)@.audio, message@).1);
        actions
    }

    fn drain(&mut self, given: Vec<Action>) -> (written: Written)
        ensures
            ({
                let (after, more, next) = drained(old(self)@);
                &&& final(self)@ == after
                &&& action_views(written.actions@) == action_views(given@) + more
                &&& written.next@ == next
            }),
    {
        let ghost start = self@;
        let ghost first = action_views(given@);
        let mut actions = given;
        loop
            invariant
                start == old(self)@,
                first == action_views(given@),
                ({
                    let (after, more, next) = drained(start);
                    let (after_rest, more_rest, next_rest) = drained(self@);
                    &&& after == after_rest
                    &&& first + more == action_views(actions@) + more_rest
                    &&& next == next_rest
                }),
            decreases self@.buffer.len(),
        {
            proof {
                law_client_message_is_prefix(self@.buffer);
            }
            let ghost so_far = action_views(actions@);
            match self.read_client_message() {
                Err(Error::Incomplete) => {
                    assert(so_far + Seq::<ActionView>::empty() =~= so_far);
                    return Written { actions, next: WriteNext::Waiting };
                },
                Err(e) => {
                    assert(so_far + Seq::<ActionView>::empty() =~= so_far);
                    return Written { actions, next: WriteNext::Failed(e) };
                },
                Ok(message) => {
                    let pending = match &message {
                        client::Message::ReplitClientAudioStartEncoder(
                            _,
                            enabled,
                            channels,
                            codec,
                            kbps,
                        ) => *enabled && StreamSettings::new(*channels, *codec, *kbps).is_ok(),
                        _ => false,
                    };
                    let mut more = self.handle(message);
                    let ghost reaction = action_views(more@);
                    actions.append(&mut more);
                    assert(action_views(actions@) =~= so_far + reaction);
                    proof {
                        let rest = drained(self@).1;
                        assert(so_far + (reaction + rest) =~= (so_far + reaction) + rest);
                    }
                    if pending {
                        return Written { actions, next: WriteNext::EncoderPending };
                    }
                },
            }
        }
    }

    /// Takes data that the client has sent, and decides what to do about the messages that are
    /// complete with it, up to one that starts an encoder.
    pub fn write_all(&mut self, data: &[u8]) -> (written: Written)
        requires
            old(self)@.buffer.len() + data@.len() <= isize::MAX,
        ensures
            (final(self)@, action_views(written.actions@), written.next@) == drained(
                WriteState { buffer: old(self)@.buffer + data@, ..old(self)@ },
            ),
    {
        buffer_append(&mut self.buf, data);
        let none: Vec<Action> = Vec::new();
        let written = self.drain(none);
        assert(action_views(written.actions@) =~= drained(
            WriteState { buffer: old(self)@.buffer + data@, ..old(self)@ },
        ).1);
        written
    }

    /// Takes the outcome of [`Action::StartEncoder`], and decides what to do about it and about the
    /// messages that follow.
    pub fn encoder_started(&mut self, success: bool) -> (written: Written)
        ensures
            ({
                let (audio, actions) = started(old(self)@.audio, success);
                let (after, more, next) = drained(WriteState { audio, ..old(self)@ });
                &&& final(self)@ == after
                &&& action_views(written.actions@) == actions + more
                &&& written.next@ == next
            }),
    {
        if success {
            self.audio.encoder = true;
        }
        let mut actions: Vec<Action> = Vec::new();
        actions.push(Action::ToClient(answer_message(START_ENCODER, success)));
        assert(action_views(actions@) =~= started(old(self)@.audio, success).1);
        self.drain(actions)
    }

    /// Decides what to do when the client has left: the frames stop.
    pub fn shutdown(&mut self) -> (actions: Vec<Action>)
        ensures
            final(self)@ == (WriteState {
                audio: AudioState { streaming: false, ..old(self)@.audio },
                ..old(self)@
            }),
            action_views(actions@) == seq![ActionView::StopAudio],
    {
        self.audio.streaming = false;
        let mut actions: Vec<Action> = Vec::new();
        actions.push(Action::StopAudio);
        assert(action_views(actions@) =~= seq![ActionView::StopAudio]);
        actions
    }

    /// Takes note that the frames are not being sent continuously any more, whatever ended that. To
    /// be called once the message that ends them has been sent.
    pub fn updates_ended(&mut self)
        ensures
            final(self)@ == (WriteState { audio: ended(old(self)@.audio), ..old(self)@ }),
    {
        self.audio.streaming = false;
    }
}

/// What a [`WriteHalf`] reacts to: a message of the client, the outcome of starting an encoder, or
/// the end of the continuous updates.
pub enum WriteEvent {
    Message(client::MessageView),
    Started(bool),
    UpdatesEnded,
}

/// What to do about an event, and the audio after it.
pub open spec fn reaction(audio: AudioState, event: WriteEvent) -> (AudioState, Seq<ActionView>) {
    match event {
        WriteEvent::Message(message) => handled(audio, message),
        WriteEvent::Started(success) => started(audio, success),
        WriteEvent::UpdatesEnded => (ended(audio), Seq::empty()),
    }
}

/// All that is done about `events`, one after the other, and the audio after them.
pub open spec fn run(audio: AudioState, events: Seq<WriteEvent>) -> (AudioState, Seq<ActionView>)
    decreases events.len(),
{
    if events.len() == 0 {
        (audio, Seq::empty())
    } else {
        let (before, actions) = run(audio, events.drop_last());
        let (after, more) = reaction(before, events.last());
        (after, actions + more)
    }
}

/// What the server is sent.
pub open spec fn to_server(actions: Seq<ActionView>) -> Seq<u8>
    decreases actions.len(),
{
    if actions.len() == 0 {
        Seq::empty()
    } else {
        to_server(actions.drop_last()) + match actions.last() {
            ActionView::ToServer(data) => data,
            _ => Seq::empty(),
        }
    }
}

/// Whether a message is about the audio of the connection.
pub open spec fn about_audio(message: client::MessageView) -> bool {
    message is ReplitClientAudioStartEncoder || message is ReplitClientAudioFrameRequest
        || message is ReplitClientAudioStartContinuousUpdates
}

/// The raw bytes of the messages that are not about audio.
pub open spec fn for_server(events: Seq<WriteEvent>) -> Seq<u8>
    decreases events.len(),
{
    if events.len() == 0 {
        Seq::empty()
    } else {
        for_server(events.drop_last()) + match events.last() {
            WriteEvent::Message(message) => if about_audio(message) {
                Seq::empty()
            } else {
                message.payload()
            },
            _ => Seq::empty(),
        }
    }
}

proof fn lemma_to_server_joined(a: Seq<ActionView>, b: Seq<ActionView>)
    ensures
        to_server(a + b) == to_server(a) + to_server(b),
    decreases b.len(),
{
    if b.len() == 0 {
        assert(a + b =~= a);
        assert(to_server(a) + to_server(b) =~= to_server(a));
    } else {
        lemma_to_server_joined(a, b.drop_last());
        assert((a + b).drop_last() =~= a + b.drop_last());
        let last: Seq<u8> = match b.last() {
            ActionView::ToServer(data) => data,
            _ => Seq::empty(),
        };
        assert((to_server(a) + to_server(b.drop_last())) + last =~= to_server(a) + (to_server(
            b.drop_last(),
        ) + last));
    }
}

proof fn lemma_announcements(numbers: Seq<int>)
    ensures
        to_server(announcements(numbers)) == Seq::<u8>::empty(),
        announcements(numbers).len() <= numbers.len(),
        forall|i: int|
            0 <= i < announcements(numbers).len() ==> #[trigger] announcements(numbers)[i]
                == ActionView::ToClient(AUDIO_SUPPORT@),
    decreases numbers.len(),
{
    if numbers.len() > 0 {
        lemma_announcements(numbers.drop_last());
        let earlier = announcements(numbers.drop_last());
        assert(earlier.push(ActionView::ToClient(AUDIO_SUPPORT@)).drop_last() =~= earlier);
    }
}

proof fn lemma_reaction_to_server(audio: AudioState, event: WriteEvent)
    requires
        !(event matches WriteEvent::Message(m) && m is ReplitClientAudioFrameRequest),
    ensures
        to_server(reaction(audio, event).1) == for_server(seq![event]),
{
    reveal_with_fuel(to_server, 4);
    reveal_with_fuel(for_server, 2);
    let actions = reaction(audio, event).1;
    assert(seq![event].drop_last() =~= Seq::<WriteEvent>::empty());
    if let WriteEvent::Message(client::MessageView::SetEncodings(payload)) = event {
        lemma_announcements(encodings(payload));
        assert(actions.drop_last() =~= announcements(encodings(payload)));
    }
    assert(to_server(actions) =~= for_server(seq![event]));
}

/// Every message of the client that is not about audio reaches the server, unchanged and in order,
/// and nothing else does. The one message about audio that may be passed on is a request for a
/// frame that comes before there is an encoder.
pub proof fn law_other_messages_reach_the_server(audio: AudioState, events: Seq<WriteEvent>)
    requires
        forall|i: int|
            0 <= i < events.len() ==> !(#[trigger] events[i] matches WriteEvent::Message(m)
                && m is ReplitClientAudioFrameRequest),
    ensures
        to_server(run(audio, events).1) == for_server(events),
    decreases events.len(),
{
    if events.len() > 0 {
        let earlier = events.drop_last();
        let event = events.last();
        assert forall|i: int| 0 <= i < earlier.len() implies !(
        #[trigger] earlier[i] matches WriteEvent::Message(m)
            && m is ReplitClientAudioFrameRequest) by {
            assert(earlier[i] == events[i]);
        }
        assert(event == events[events.len() - 1]);
        law_other_messages_reach_the_server(audio, earlier);
        let (before, actions) = run(audio, earlier);
        lemma_to_server_joined(actions, reaction(before, event).1);
        lemma_reaction_to_server(before, event);
        reveal_with_fuel(for_server, 2);
        assert(seq![event].drop_last() =~= Seq::<WriteEvent>::empty());
        assert(for_server(events) =~= for_server(earlier) + for_server(seq![event]));
    }
}

/// A request for a frame is answered with a frame, at once, if there is an encoder whose frames are
/// not being sent continuously. While frames are being sent continuously, nothing is done about it:
/// the client gets frames all the same. Either way it does not reach the server.
pub proof fn law_frame_requests(audio: AudioState, payload: Seq<u8>)
    requires
        audio.encoder || audio.streaming,
    ensures
        ({
            let (after, actions) = handled(
                audio,
                client::MessageView::ReplitClientAudioFrameRequest(payload),
            );
            &&& after == audio
            &&& to_server(actions) == Seq::<u8>::empty()
            &&& audio.encoder ==> actions == seq![ActionView::SendFrame]
        }),
{
    reveal_with_fuel(to_server, 2);
    let (after, actions) = handled(
        audio,
        client::MessageView::ReplitClientAudioFrameRequest(payload),
    );
    assert(to_server(actions) =~= Seq::<u8>::empty());
}

/// Once the continuous updates have ended, whatever ended them, no request for a frame is dropped:
/// it is answered with a frame if an encoder was started meanwhile, and passed on to the server if
/// not.
pub proof fn law_frame_requests_after_the_updates(audio: AudioState, payload: Seq<u8>)
    ensures
        ({
            let request = WriteEvent::Message(
                client::MessageView::ReplitClientAudioFrameRequest(payload),
            );
            run(audio, seq![WriteEvent::UpdatesEnded, request]) == (
                ended(audio),
                seq![
                    if audio.encoder {
                        ActionView::SendFrame
                    } else {
                        ActionView::ToServer(payload)
                    },
                ],
            )
        }),
{
    reveal_with_fuel(run, 3);
    let request = WriteEvent::Message(client::MessageView::ReplitClientAudioFrameRequest(payload));
    let both = seq![WriteEvent::UpdatesEnded, request];
    assert(both.drop_last() =~= seq![WriteEvent::UpdatesEnded]);
    assert(both.drop_last().drop_last() =~= Seq::<WriteEvent>::empty());
    assert(run(audio, both).1 =~= handled(
        ended(audio),
        client::MessageView::ReplitClientAudioFrameRequest(payload),
    ).1);
}

/// Each request to start or stop an encoder gets one answer: a stop is answered with 0, after the
/// last frame has been sent; a start with settings that are not valid, with 0; and any other start
/// with whether it succeeded. Nothing reaches the server.
pub proof fn law_encoder_requests_are_answered(
    audio: AudioState,
    payload: Seq<u8>,
    enabled: bool,
    channels: u8,
    codec: u16,
    kbps: u16,
    success: bool,
)
    ensures
        ({
            let request = WriteEvent::Message(
                client::MessageView::ReplitClientAudioStartEncoder(
                    payload,
                    enabled,
                    channels,
                    codec,
                    kbps,
                ),
            );
            let valid = (codec == 0 || codec == 1) && (channels == 1 || channels == 2);
            let no = ActionView::ToClient(answer(START_ENCODER, false));
            &&& !enabled ==> run(audio, seq![request]) == (
                AudioState { encoder: false, streaming: false },
                seq![ActionView::StopAudio, ActionView::DropEncoder, no],
            )
            &&& enabled && !valid ==> run(audio, seq![request]) == (audio, seq![no])
            &&& enabled && valid ==> (StreamSettings::requested(
                channels,
                codec,
                kbps,
            ) matches Ok(settings) && run(audio, seq![request, WriteEvent::Started(success)]) == (
                AudioState { encoder: audio.encoder || success, ..audio },
                seq![
                    ActionView::StartEncoder(settings),
                    ActionView::ToClient(answer(START_ENCODER, success)),
                ],
            ))
            &&& to_server(run(audio, seq![request]).1) == Seq::<u8>::empty()
        }),
{
    reveal_with_fuel(run, 3);
    reveal_with_fuel(to_server, 4);
    let request = WriteEvent::Message(
        client::MessageView::ReplitClientAudioStartEncoder(payload, enabled, channels, codec, kbps),
    );
    let both = seq![request, WriteEvent::Started(success)];
    let no = ActionView::ToClient(answer(START_ENCODER, false));
    assert(seq![request].drop_last() =~= Seq::<WriteEvent>::empty());
    assert(both.drop_last() =~= seq![request]);
    let one = run(audio, seq![request]).1;
    if !enabled {
        assert(one =~= seq![ActionView::StopAudio, ActionView::DropEncoder, no]);
    } else {
        match StreamSettings::requested(channels, codec, kbps) {
            Err(_) => {
                assert(one =~= seq![no]);
            },
            Ok(settings) => {
                assert(one =~= seq![ActionView::StartEncoder(settings)]);
                assert(run(audio, both).1 =~= seq![
                    ActionView::StartEncoder(settings),
                    ActionView::ToClient(answer(START_ENCODER, success)),
                ]);
            },
        }
    }
    lemma_reaction_to_server(audio, request);
    reveal_with_fuel(for_server, 2);
    assert(one =~= reaction(audio, request).1);
    assert(for_server(seq![request]) =~= Seq::<u8>::empty());
}

/// What the client is sent, where `updates` are the messages of the continuous updates that an
/// action starts or waits for.
pub open spec fn to_client(actions: Seq<ActionView>, updates: Seq<Seq<u8>>) -> Seq<Seq<u8>>
    decreases actions.len(),
{
    if actions.len() == 0 {
        Seq::empty()
    } else {
        to_client(actions.drop_last(), updates) + match actions.last() {
            ActionView::ToClient(data) => seq![data],
            ActionView::StopAudio => updates,
            ActionView::RunAudio => updates,
            _ => Seq::empty(),
        }
    }
}

/// The messages of the continuous updates that the client is sent in the course of `events`.
pub open spec fn sent_by(
    stream: Stream,
    events: Seq<(RunEventView, Option<Seq<u8>>)>,
) -> Seq<Seq<u8>> {
    match run_trace(stream, events) {
        Some((_, _, sent)) => sent,
        None => Seq::empty(),
    }
}

/// Continuous updates that are granted are announced before the first frame, and a closing message
/// follows the last one, whatever ended them. Without an encoder they are refused, and there is no
/// frame. This is about the messages of one run of updates: where it takes the place of another
/// one, the last frame and the closing message of that one may still come.
pub proof fn law_continuous_updates_are_framed(
    audio: AudioState,
    payload: Seq<u8>,
    stream: Stream,
    events: Seq<(RunEventView, Option<Seq<u8>>)>,
)
    requires
        run_trace(stream, events) matches Some((_, action, _)) && action is Finish,
    ensures
        ({
            let request = client::MessageView::ReplitClientAudioStartContinuousUpdates(payload);
            let actions = handled(audio, request).1;
            let all = to_client(actions, sent_by(stream, events));
            &&& to_server(actions) == Seq::<u8>::empty()
            &&& !audio.encoder ==> all == seq![answer(CONTINUOUS_UPDATES, false)]
            &&& audio.encoder ==> {
                &&& all.len() >= 2
                &&& all[0] == answer(CONTINUOUS_UPDATES, true)
                &&& all.last() == answer(CONTINUOUS_UPDATES, false)
                &&& forall|i: int| 0 < i < all.len() - 1 ==> is_frame(#[trigger] all[i])
            }
        }),
{
    law_closing_message_comes_last(stream, events);
    reveal_with_fuel(to_client, 3);
    reveal_with_fuel(to_server, 3);
    let request = client::MessageView::ReplitClientAudioStartContinuousUpdates(payload);
    let actions = handled(audio, request).1;
    assert(to_server(actions) =~= Seq::<u8>::empty());
    if let Some((_, _, sent)) = run_trace(stream, events) {
        let all = to_client(actions, sent);
        if audio.encoder {
            assert(actions.drop_last() =~= seq![
                ActionView::ToClient(answer(CONTINUOUS_UPDATES, true)),
            ]);
            assert(all =~= seq![answer(CONTINUOUS_UPDATES, true)] + sent);
            assert(all.last() == sent.last());
            assert forall|i: int| 0 < i < all.len() - 1 implies is_frame(#[trigger] all[i]) by {
                assert(all[i] == sent[i - 1]);
            }
        } else {
            assert(all =~= seq![answer(CONTINUOUS_UPDATES, false)]);
        }
    }
}

/// A request to stop the encoder while frames are being sent continuously, `before` messages of the
/// updates having been sent already: the client is sent the frames that are still to come, the
/// closing message after the last of them, and then the acknowledgement. No frame of these updates
/// follows that.
pub proof fn law_stop_is_acknowledged_after_the_last_frame(
    audio: AudioState,
    payload: Seq<u8>,
    channels: u8,
    codec: u16,
    kbps: u16,
    stream: Stream,
    events: Seq<(RunEventView, Option<Seq<u8>>)>,
    before: int,
)
    requires
        run_trace(stream, events) matches Some((_, action, sent)) && action is Finish && 0 <= before
            < sent.len(),
    ensures
        ({
            let request = client::MessageView::ReplitClientAudioStartEncoder(
                payload,
                false,
                channels,
                codec,
                kbps,
            );
            let actions = handled(audio, request).1;
            let all = to_client(actions, sent_by(stream, events).skip(before));
            &&& to_server(actions) == Seq::<u8>::empty()
            &&& all.len() >= 2
            &&& all.last() == answer(START_ENCODER, false)
            &&& all[all.len() - 2] == answer(CONTINUOUS_UPDATES, false)
            &&& forall|i: int| 0 <= i < all.len() - 2 ==> is_frame(#[trigger] all[i])
        }),
{
    law_closing_message_comes_last(stream, events);
    reveal_with_fuel(to_client, 4);
    reveal_with_fuel(to_server, 4);
    let request = client::MessageView::ReplitClientAudioStartEncoder(
        payload,
        false,
        channels,
        codec,
        kbps,
    );
    let actions = handled(audio, request).1;
    assert(to_server(actions) =~= Seq::<u8>::empty());
    if let Some((_, _, sent)) = run_trace(stream, events) {
        let rest = sent.skip(before);
        let all = to_client(actions, rest);
        assert(actions.drop_last() =~= seq![ActionView::StopAudio, ActionView::DropEncoder]);
        assert(actions.drop_last().drop_last() =~= seq![ActionView::StopAudio]);
        assert(seq![ActionView::StopAudio].drop_last() =~= Seq::<ActionView>::empty());
        assert(all =~= rest.push(answer(START_ENCODER, false)));
        assert(all[all.len() - 2] == sent.last());
        assert forall|i: int| 0 <= i < all.len() - 2 implies is_frame(#[trigger] all[i]) by {
            assert(all[i] == sent[before + i]);
        }
    }
}

/// Frames are only ever sent after an encoder was started successfully.
pub proof fn law_audio_needs_an_encoder(events: Seq<WriteEvent>)
    requires
        forall|i: int|
            0 <= i < events.len() ==> #[trigger] events[i] != WriteEvent::Started(true),
    ensures
        ({
            let (audio, actions) = run(AudioState { encoder: false, streaming: false }, events);
            &&& audio == AudioState { encoder: false, streaming: false }
            &&& forall|i: int|
                0 <= i < actions.len() ==> !(#[trigger] actions[i] is RunAudio)
                    && !(actions[i] is SendFrame)
        }),
    decreases events.len(),
{
    if events.len() > 0 {
        let off = AudioState { encoder: false, streaming: false };
        let earlier = events.drop_last();
        assert forall|i: int| 0 <= i < earlier.len() implies #[trigger] earlier[i]
            != WriteEvent::Started(true) by {
            assert(earlier[i] == events[i]);
        }
        assert(events.last() == events[events.len() - 1]);
        law_audio_needs_an_encoder(earlier);
        let more = reaction(off, events.last()).1;
        if let WriteEvent::Message(client::MessageView::SetEncodings(payload)) = events.last() {
            lemma_announcements(encodings(payload));
        }
        assert(forall|i: int|
            0 <= i < more.len() ==> !(#[trigger] more[i] is RunAudio) && !(more[i] is SendFrame));
    }
}

/// A client is told about audio exactly if it lists the pseudo-encoding, and the list reaches the
/// server all the same.
pub proof fn law_audio_is_announced(audio: AudioState, payload: Seq<u8>)
    ensures
        ({
            let (after, actions) = handled(audio, client::MessageView::SetEncodings(payload));
            &&& after == audio
            &&& actions.last() == ActionView::ToServer(payload)
            &&& actions.contains(ActionView::ToClient(AUDIO_SUPPORT@)) <==> encodings(
                payload,
            ).contains(REPLIT_AUDIO_ENCODING as int)
        }),
{
    let numbers = encodings(payload);
    let (after, actions) = handled(audio, client::MessageView::SetEncodings(payload));
    lemma_announced_if_listed(numbers);
    let told = ActionView::ToClient(AUDIO_SUPPORT@);
    let announced = announcements(numbers);
    if actions.contains(told) {
        let i = choose|i: int| 0 <= i < actions.len() && actions[i] == told;
        assert(announced[i] == told);
    }
    if numbers.contains(REPLIT_AUDIO_ENCODING as int) {
        lemma_announcements(numbers);
        assert(actions[0] == announced[0]);
    }
}

proof fn lemma_announced_if_listed(numbers: Seq<int>)
    ensures
        announcements(numbers).len() > 0 <==> numbers.contains(REPLIT_AUDIO_ENCODING as int),
    decreases numbers.len(),
{
    if numbers.len() > 0 {
        let n = REPLIT_AUDIO_ENCODING as int;
        let earlier = numbers.drop_last();
        lemma_announced_if_listed(earlier);
        if numbers.contains(n) {
            let i = choose|i: int| 0 <= i < numbers.len() && numbers[i] == n;
            if i < earlier.len() {
                assert(earlier[i] == n);
            }
        }
        if earlier.contains(n) {
            let i = choose|i: int| 0 <= i < earlier.len() && earlier[i] == n;
            assert(numbers[i] == n);
        }
        if numbers.last() == n {
            assert(numbers[numbers.len() - 1] == n);
        }
    }
}

/// To a client that does not ask for audio, the proxy is transparent: what the server is sent is
/// the client's stream, byte for byte, up to a message that is not complete yet.
pub proof fn law_proxy_is_transparent(state: WriteState)
    requires
        forall|i: int|
            0 <= i < client_messages(state.buffer).len() ==> !about_audio(
                #[trigger] client_messages(state.buffer)[i],
            ),
    ensures
        to_server(drained(state).1) + drained(state).0.buffer == state.buffer,
        drained(state).0.audio == state.audio,
    decreases state.buffer.len(),
{
    let s = state.buffer;
    law_client_message_is_prefix(s);
    reveal(next_client_message);
    match client_message(s) {
        Err(_) => {
            assert(to_server(drained(state).1) =~= Seq::<u8>::empty());
            assert(to_server(drained(state).1) + s =~= s);
        },
        Ok(message) => {
            let n = message.payload().len() as int;
            let rest = s.skip(n);
            assert(rest =~= s.subrange(n, s.len() as int));
            let messages = client_messages(s);
            assert(messages =~= seq![message] + client_messages(rest));
            assert(!about_audio(messages[0]));
            assert forall|i: int| 0 <= i < client_messages(rest).len() implies !about_audio(
                #[trigger] client_messages(rest)[i],
            ) by {
                assert(client_messages(rest)[i] == messages[i + 1]);
            }
            let (audio, actions) = handled(state.audio, message);
            let later = WriteState { buffer: rest, audio };
            law_proxy_is_transparent(later);
            lemma_to_server_joined(actions, drained(later).1);
            let event = WriteEvent::Message(message);
            lemma_reaction_to_server(state.audio, event);
            reveal_with_fuel(for_server, 2);
            assert(seq![event].drop_last() =~= Seq::<WriteEvent>::empty());
            assert(for_server(seq![event]) =~= message.payload());
            assert(message.payload() + rest =~= s);
            assert((message.payload() + to_server(drained(later).1)) + drained(later).0.buffer
                =~= message.payload() + (to_server(drained(later).1) + drained(later).0.buffer));
        },
    }
}

/// The pieces in which the client's data comes in do not matter: what is done about all of it is
/// what is done about the start of it, and then about the rest.
pub proof fn law_pieces_do_not_matter(state: WriteState, more: Seq<u8>)
    requires
        drained(state).2 is Waiting,
    ensures
        ({
            let (middle, first, _) = drained(state);
            let (after, second, next) = drained(
                WriteState { buffer: middle.buffer + more, ..middle },
            );
            drained(WriteState { buffer: state.buffer + more, ..state }) == (
                after,
                first + second,
                next,
            )
        }),
    decreases state.buffer.len(),
{
    let s = state.buffer;
    let (middle, first, _) = drained(state);
    let (after, second, next) = drained(WriteState { buffer: middle.buffer + more, ..middle });
    law_client_message_is_prefix(s);
    law_client_message_is_final(s, more);
    match client_message(s) {
        Err(_) => {
            assert(first + second =~= second);
        },
        Ok(message) => {
            let n = message.payload().len() as int;
            let (audio, actions) = handled(state.audio, message);
            let rest = WriteState { buffer: s.skip(n), audio };
            law_pieces_do_not_matter(rest, more);
            assert((s + more).skip(n) =~= s.skip(n) + more);
            let rest_first = drained(rest).1;
            assert(actions + (rest_first + second) =~= (actions + rest_first) + second);
        },
    }
}

/// What a client is told about audio is one pseudo-rectangle, and the codecs that it lists are
/// those that an encoder can be started with.
pub proof fn law_announced_codecs_are_supported(codec: u16)
    ensures
        be16(AUDIO_SUPPORT@, 2) == 1,
        be_i32(AUDIO_SUPPORT@, 12) == REPLIT_AUDIO_ENCODING,
        AUDIO_SUPPORT@.len() == 20 + 2 * be16(AUDIO_SUPPORT@, 18),
        Codec::numbered(codec) is Some <==> exists|i: int|
            0 <= i < be16(AUDIO_SUPPORT@, 18) && codec == #[trigger] be16(
                AUDIO_SUPPORT@,
                20 + 2 * i,
            ),
{
    assert(be16(AUDIO_SUPPORT@, 20 + 2 * 0int) == 0);
    assert(be16(AUDIO_SUPPORT@, 20 + 2 * 1int) == 1);
}

} // verus!
