//! What a connection with audio does, told by the bytes that come in and go out.

use vstd::prelude::*;

use crate::audio::{Codec, StreamSettings};
use crate::messages::client::client_message;
use crate::messages::layout::{law_client_messages_are_read_back, law_encodings_are_read_back};
use crate::messages::layout::{law_server_messages_are_read_back, law_updates_are_read_back};
use crate::messages::layout::{rectangle_header, update_bytes};
use crate::messages::layout::{ClientMessage, Rectangle, ServerMessage};
use crate::messages::server;
use crate::messages::stream::{next_server_message, server_messages, server_rest};
use crate::rfb::{announcements, drained, ended, handled, read_outcome, server_init_bits, started};
use crate::rfb::{ActionView, AudioState, WriteNextView, WriteState};

verus! {

/// How often the Replit Audio pseudo-encoding, 0x52706c41, is among encodings.
pub open spec fn times_audio_is_listed(numbers: Seq<int>) -> nat
    decreases numbers.len(),
{
    if numbers.len() == 0 {
        0
    } else if numbers[0] == 0x52706c41 {
        1 + times_audio_is_listed(numbers.drop_first())
    } else {
        times_audio_is_listed(numbers.drop_first())
    }
}

/// The framebuffer update with one pseudo-rectangle that says that there is audio: version 0, and
/// the two codecs 0 and 1.
pub open spec fn audio_rectangle() -> Seq<u8> {
    seq![0u8, 0u8, 0u8, 1u8] + rectangle_header(0, 0, 0, 0, 0x52706c41) + seq![
        0u8,
        0u8,
        0u8,
        2u8,
        0u8,
        0u8,
        0u8,
        1u8,
    ]
}

/// A message about audio whose payload is a single byte.
pub open spec fn audio_answer(submessage: u8, enabled: u8) -> Seq<u8> {
    seq![245u8, submessage, 0u8, 1u8, enabled]
}

/// What there is to do about a message of the client, in this order, and the audio after it.
pub open spec fn reaction_to(m: ClientMessage, audio: AudioState) -> (AudioState, Seq<ActionView>) {
    match m {
        ClientMessage::SetPixelFormat { format, .. } => (
            audio,
            seq![
                ActionView::SetBytesPerPixel(format[0] as int / 8),
                ActionView::ToServer(m.bytes()),
            ],
        ),
        ClientMessage::SetEncodings { numbers, .. } => (
            audio,
            Seq::new(
                times_audio_is_listed(numbers),
                |i: int| ActionView::ToClient(audio_rectangle()),
            ) + seq![ActionView::ToServer(m.bytes())],
        ),
        ClientMessage::StartEncoder { enabled, channels, codec, kbytes_per_sec } => if enabled
            == 0 {
            (
                AudioState { encoder: false, streaming: false },
                seq![
                    ActionView::StopAudio,
                    ActionView::DropEncoder,
                    ActionView::ToClient(audio_answer(0, 0)),
                ],
            )
        } else if channels != 1 && channels != 2 || codec > 1 {
            (audio, seq![ActionView::ToClient(audio_answer(0, 0))])
        } else {
            (
                audio,
                seq![
                    ActionView::StartEncoder(
                        StreamSettings {
                            codec: if codec == 0 {
                                Codec::Opus
                            } else {
                                Codec::Mp3
                            },
                            channels,
                            kbps: kbytes_per_sec,
                        },
                    ),
                ],
            )
        },
        ClientMessage::FrameRequest => (
            audio,
            if audio.encoder {
                seq![ActionView::SendFrame]
            } else if audio.streaming {
                Seq::empty()
            } else {
                seq![ActionView::ToServer(m.bytes())]
            },
        ),
        ClientMessage::StartContinuousUpdates => if audio.encoder {
            (
                AudioState { encoder: false, streaming: true },
                seq![ActionView::ToClient(audio_answer(2, 1)), ActionView::RunAudio],
            )
        } else {
            (audio, seq![ActionView::ToClient(audio_answer(2, 0))])
        },
        _ => (audio, seq![ActionView::ToServer(m.bytes())]),
    }
}

proof fn lemma_announcements(numbers: Seq<int>)
    ensures
        announcements(numbers) == Seq::new(
            times_audio_is_listed(numbers),
            |i: int| ActionView::ToClient(audio_rectangle()),
        ),
    decreases numbers.len(),
{
    lemma_audio_rectangle();
    let told = |i: int| ActionView::ToClient(audio_rectangle());
    if numbers.len() == 0 {
        assert(announcements(numbers) =~= Seq::new(times_audio_is_listed(numbers), told));
    } else {
        lemma_announcements(numbers.drop_last());
        lemma_times_listed(numbers);
        assert(announcements(numbers) =~= Seq::new(times_audio_is_listed(numbers), told));
    }
}

proof fn lemma_audio_rectangle()
    ensures
        crate::rfb::AUDIO_SUPPORT@ == audio_rectangle(),
{
    assert(crate::rfb::AUDIO_SUPPORT@ =~= audio_rectangle());
}

proof fn lemma_times_listed(numbers: Seq<int>)
    requires
        numbers.len() > 0,
    ensures
        times_audio_is_listed(numbers) == times_audio_is_listed(numbers.drop_last()) + (
        if numbers.last() == 0x52706c41 {
            1nat
        } else {
            0
        }),
    decreases numbers.len(),
{
    if numbers.len() == 1 {
        assert(numbers.drop_first() =~= Seq::<int>::empty());
        assert(numbers.drop_last() =~= Seq::<int>::empty());
    } else {
        lemma_times_listed(numbers.drop_first());
        assert(numbers.drop_first().drop_last() =~= numbers.drop_last().drop_first());
    }
}

/// What is done about each kind of message: the pixel format is noted as the number of whole bytes
/// in its bits-per-pixel; audio is announced once for each time that it is listed; encoders are
/// started, stopped and refused; frames are sent; and everything else just goes to the server, like
/// the pixel format and the encodings, byte for byte.
pub proof fn law_messages_are_handled(m: ClientMessage, audio: AudioState)
    requires
        m.valid(),
    ensures
        handled(audio, m.parsed()) == reaction_to(m, audio),
{
    match m {
        ClientMessage::SetPixelFormat { unused, format } => {
            assert(m.bytes()[4] == format[0]);
        },
        ClientMessage::SetEncodings { padding, numbers } => {
            law_encodings_are_read_back(padding, numbers);
            lemma_announcements(numbers);
        },
        ClientMessage::StartEncoder { enabled, channels, codec, kbytes_per_sec } => {
            lemma_answers();
        },
        ClientMessage::StartContinuousUpdates => {
            lemma_answers();
        },
        _ => {},
    }
    assert(handled(audio, m.parsed()).1 =~= reaction_to(m, audio).1);
}

proof fn lemma_answers()
    ensures
        crate::audio::answer(0, false) == audio_answer(0, 0),
        crate::audio::answer(0, true) == audio_answer(0, 1),
        crate::audio::answer(2, false) == audio_answer(2, 0),
        crate::audio::answer(2, true) == audio_answer(2, 1),
{
    reveal_with_fuel(crate::data::big_endian, 3);
    assert(crate::audio::answer(0, false) =~= audio_answer(0, 0));
    assert(crate::audio::answer(0, true) =~= audio_answer(0, 1));
    assert(crate::audio::answer(2, false) =~= audio_answer(2, 0));
    assert(crate::audio::answer(2, true) =~= audio_answer(2, 1));
}

/// Whether a message makes the ones behind it wait: it starts an encoder that there can be.
pub open spec fn makes_others_wait(m: ClientMessage) -> bool {
    m matches ClientMessage::StartEncoder { enabled, channels, codec, .. } && enabled != 0 && (
    channels == 1 || channels == 2) && codec <= 1
}

/// The messages of the client are dealt with one after the other: what is done about a message and
/// what follows it is what is done about the message, and then what is done about what follows it.
/// Only behind a message that starts an encoder they wait.
pub proof fn law_messages_are_handled_one_by_one(m: ClientMessage, audio: AudioState, rest: Seq<u8>)
    requires
        m.valid(),
    ensures
        ({
            let (after, actions) = reaction_to(m, audio);
            let later = WriteState { buffer: rest, audio: after };
            drained(WriteState { buffer: m.bytes() + rest, audio }) == (if makes_others_wait(m) {
                (later, actions, WriteNextView::EncoderPending)
            } else {
                (drained(later).0, actions + drained(later).1, drained(later).2)
            })
        }),
{
    law_client_messages_are_read_back(m, rest);
    law_messages_are_handled(m, audio);
    let all = m.bytes() + rest;
    assert(all.skip(m.bytes().len() as int) =~= rest);
}

/// While what the client has sent is the start of a message, nothing is done; and where it is not a
/// message at all, nothing is done any more.
pub proof fn law_unfinished_messages_wait(m: ClientMessage, audio: AudioState, n: int)
    requires
        m.valid(),
        0 <= n < m.bytes().len(),
    ensures
        drained(WriteState { buffer: m.bytes().take(n), audio }) == (
            WriteState { buffer: m.bytes().take(n), audio },
            Seq::<ActionView>::empty(),
            WriteNextView::Waiting,
        ),
        drained(WriteState { buffer: Seq::empty(), audio }) == (
            WriteState { buffer: Seq::empty(), audio },
            Seq::<ActionView>::empty(),
            WriteNextView::Waiting,
        ),
        forall|s: Seq<u8>|
            (#[trigger] client_message(s) matches Err(e) && !(e is Incomplete)) ==> (drained(
                WriteState { buffer: s, audio },
            ) matches (after, actions, WriteNextView::Failed(f)) && after == (WriteState {
                buffer: s,
                audio,
            }) && actions.len() == 0 && client_message(s) == Err::<
                crate::messages::client::MessageView,
                _,
            >(f)),
{
    law_client_messages_are_read_back(m, Seq::empty());
}

/// For every SetPixelFormat message, the number of bytes in a pixel that is noted is the fifth byte
/// of the message, its bits-per-pixel, divided by 8, whatever else the message says; and the
/// message goes to the server. What the server says at the start counts in the same way: its fifth
/// byte, or 0 if it says less than that.
pub proof fn law_pixel_format_is_noted(
    message: Seq<u8>,
    audio: AudioState,
    rest: Seq<u8>,
    server_init: Seq<u8>,
)
    requires
        message.len() == 20,
        message[0] == 0,
    ensures
        ({
            let noted = seq![
                ActionView::SetBytesPerPixel(message[4] as int / 8),
                ActionView::ToServer(message),
            ];
            let later = drained(WriteState { buffer: rest, audio });
            &&& handled(
                audio,
                crate::messages::client::MessageView::SetPixelFormat(message),
            ) == (audio, noted)
            &&& drained(WriteState { buffer: message + rest, audio }) == (
                later.0,
                noted + later.1,
                later.2,
            )
        }),
        server_init.len() >= 5 ==> server_init_bits(server_init) == server_init[4],
        server_init.len() < 5 ==> server_init_bits(server_init) == 0,
{
    let m = ClientMessage::SetPixelFormat {
        unused: message.subrange(1, 4),
        format: message.subrange(4, 20),
    };
    assert(m.bytes() =~= message);
    law_messages_are_handled(m, audio);
    law_messages_are_handled_one_by_one(m, audio, rest);
}

/// The outcome of starting an encoder is told to the client, in one byte. With success there is an
/// encoder; without, there is one if there was one before. What the updates are doing does not
/// change. When they end, nothing else changes.
pub proof fn law_encoder_outcome_is_told(audio: AudioState, success: bool)
    ensures
        started(audio, success) == (
            AudioState { encoder: success || audio.encoder, streaming: audio.streaming },
            seq![
                ActionView::ToClient(
                    audio_answer(
                        0,
                        if success {
                            1
                        } else {
                            0
                        },
                    ),
                ),
            ],
        ),
        ended(audio) == (AudioState { encoder: audio.encoder, streaming: false }),
{
    lemma_answers();
    assert(started(audio, success).1 =~= seq![
        ActionView::ToClient(
            audio_answer(
                0,
                if success {
                    1
                } else {
                    0
                },
            ),
        ),
    ]);
}

/// The messages of the server are taken off its stream one after the other.
pub proof fn law_server_messages_come_one_by_one(
    m: ServerMessage,
    rest: Seq<u8>,
    bytes_per_pixel: int,
)
    requires
        m.valid(),
        0 <= bytes_per_pixel,
    ensures
        server_messages(m.bytes() + rest, bytes_per_pixel) == seq![m.parsed()] + server_messages(
            rest,
            bytes_per_pixel,
        ),
        server_rest(m.bytes() + rest, bytes_per_pixel) == server_rest(rest, bytes_per_pixel),
        server_messages(Seq::empty(), bytes_per_pixel) == Seq::<server::MessageView>::empty(),
        forall|n: int|
            0 <= n < m.bytes().len() ==> server_rest(#[trigger] m.bytes().take(n), bytes_per_pixel)
                == m.bytes().take(n),
{
    law_server_messages_are_read_back(m, rest, bytes_per_pixel);
    reveal(next_server_message);
    let all = m.bytes() + rest;
    assert(all.subrange(m.bytes().len() as int, all.len() as int) =~= rest);
}

/// The framebuffer updates of the server, with any rectangles, are taken off its stream one after
/// the other.
pub proof fn law_server_updates_come_one_by_one(
    padding: u8,
    list: Seq<Rectangle>,
    rest: Seq<u8>,
    bytes_per_pixel: int,
)
    requires
        0 <= bytes_per_pixel,
        list.len() <= 65535,
        forall|i: int|
            0 <= i < list.len() ==> (#[trigger] list[i]).valid(bytes_per_pixel) && !(
            list[i].content is LastRect),
    ensures
        ({
            let update = update_bytes(padding, list.len() as int, list);
            &&& server_messages(update + rest, bytes_per_pixel) == seq![
                server::MessageView::FramebufferUpdate(update),
            ] + server_messages(rest, bytes_per_pixel)
            &&& server_rest(update + rest, bytes_per_pixel) == server_rest(rest, bytes_per_pixel)
        }),
{
    law_updates_are_read_back(padding, list.len() as int, list, rest, bytes_per_pixel);
    reveal(next_server_message);
    let update = update_bytes(padding, list.len() as int, list);
    let all = update + rest;
    assert(all.subrange(update.len() as int, all.len() as int) =~= rest);
}

/// Reading goes on as long as there is something to read. A read that gives nothing ends it: well,
/// if nothing is left over, and badly otherwise.
pub proof fn law_reads(buffer: Seq<u8>, data: Seq<u8>)
    ensures
        data.len() > 0 ==> read_outcome(buffer, data) is Data,
        data.len() == 0 && buffer.len() == 0 ==> read_outcome(buffer, data) is Closed,
        data.len() == 0 && buffer.len() > 0 ==> read_outcome(buffer, data) is ResetByPeer,
{
}

} // verus!
