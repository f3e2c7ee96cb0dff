//! Messages that are sent from the client to the server.

use vstd::prelude::*;
use vstd::slice::slice_to_vec;
use vstd::string::StringExecFns;

use super::io::{
    be16, be_i32, cut_text, first_bytes, get_u16, get_u8, peek_u8, read_cut_text,
    read_first, skip, Cursor,
};
use crate::text::{
    byte_list, decimal, push_byte_list, push_decimal, push_signed_decimal, push_truth,
    signed_decimal, truth,
};
use super::{Error, ErrorView, ParseError, ParseErrorView};

verus! {

/// Represents a message that is sent from the client to the server.
#[derive(Debug)]
pub enum Message {
    SetPixelFormat(Vec<u8>),
    SetEncodings(Vec<u8>),
    FramebufferUpdateRequest(Vec<u8>),
    KeyEvent(Vec<u8>),
    PointerEvent(Vec<u8>),
    ClientCutText(Vec<u8>),
    // Extensions
    EnableContinuousUpdates(Vec<u8>),
    ClientFence(Vec<u8>),
    SetDesktopSize(Vec<u8>),
    QemuClientMessage(Vec<u8>),
    /// The raw message; whether to start or to stop; channels; codec; kilobytes per second.
    ReplitClientAudioStartEncoder(Vec<u8>, bool, u8, u16, u16),
    ReplitClientAudioFrameRequest(Vec<u8>),
    ReplitClientAudioStartContinuousUpdates(Vec<u8>),
}

/// The mathematical content of a [`Message`].
pub enum MessageView {
    SetPixelFormat(Seq<u8>),
    SetEncodings(Seq<u8>),
    FramebufferUpdateRequest(Seq<u8>),
    KeyEvent(Seq<u8>),
    PointerEvent(Seq<u8>),
    ClientCutText(Seq<u8>),
    EnableContinuousUpdates(Seq<u8>),
    ClientFence(Seq<u8>),
    SetDesktopSize(Seq<u8>),
    QemuClientMessage(Seq<u8>),
    ReplitClientAudioStartEncoder(Seq<u8>, bool, u8, u16, u16),
    ReplitClientAudioFrameRequest(Seq<u8>),
    ReplitClientAudioStartContinuousUpdates(Seq<u8>),
}

impl MessageView {
    /// The raw bytes of the message.
    pub open spec fn payload(self) -> Seq<u8> {
        match self {
            MessageView::SetPixelFormat(payload) => payload,
            MessageView::SetEncodings(payload) => payload,
            MessageView::FramebufferUpdateRequest(payload) => payload,
            MessageView::KeyEvent(payload) => payload,
            MessageView::PointerEvent(payload) => payload,
            MessageView::ClientCutText(payload) => payload,
            MessageView::EnableContinuousUpdates(payload) => payload,
            MessageView::ClientFence(payload) => payload,
            MessageView::SetDesktopSize(payload) => payload,
            MessageView::QemuClientMessage(payload) => payload,
            MessageView::ReplitClientAudioStartEncoder(payload, _, _, _, _) => payload,
            MessageView::ReplitClientAudioFrameRequest(payload) => payload,
            MessageView::ReplitClientAudioStartContinuousUpdates(payload) => payload,
        }
    }
}

impl View for Message {
    type V = MessageView;

    open spec fn view(&self) -> MessageView {
        match *self {
            Message::SetPixelFormat(payload) => MessageView::SetPixelFormat(payload@),
            Message::SetEncodings(payload) => MessageView::SetEncodings(payload@),
            Message::FramebufferUpdateRequest(payload) => MessageView::FramebufferUpdateRequest(
                payload@,
            ),
            Message::KeyEvent(payload) => MessageView::KeyEvent(payload@),
            Message::PointerEvent(payload) => MessageView::PointerEvent(payload@),
            Message::ClientCutText(payload) => MessageView::ClientCutText(payload@),
            Message::EnableContinuousUpdates(payload) => MessageView::EnableContinuousUpdates(
                payload@,
            ),
            Message::ClientFence(payload) => MessageView::ClientFence(payload@),
            Message::SetDesktopSize(payload) => MessageView::SetDesktopSize(payload@),
            Message::QemuClientMessage(payload) => MessageView::QemuClientMessage(payload@),
            Message::ReplitClientAudioStartEncoder(
                payload,
                enabled,
                channels,
                codec,
                kbps,
            ) => MessageView::ReplitClientAudioStartEncoder(
                payload@,
                enabled,
                channels,
                codec,
                kbps,
            ),
            Message::ReplitClientAudioFrameRequest(payload) =>
                MessageView::ReplitClientAudioFrameRequest(payload@),
            Message::ReplitClientAudioStartContinuousUpdates(payload) =>
                MessageView::ReplitClientAudioStartContinuousUpdates(payload@),
        }
    }
}

/// The id that starts every Replit Audio message.
pub const REPLIT_AUDIO_MESSAGE: u8 = 245;

/// The Replit Audio client message at the start of `s`. Its id, its submessage id and the length
/// of what follows take four bytes.
pub open spec fn replit_audio_message(s: Seq<u8>) -> Result<MessageView, ErrorView> {
    if s.len() < 4 {
        Err(ErrorView::Incomplete)
    } else if s[1] == 0 {
        if be16(s, 2) != 6 {
            Err(ErrorView::Other(ParseErrorView::StartEncoderLength(be16(s, 2))))
        } else if s.len() < 10 {
            Err(ErrorView::Incomplete)
        } else {
            Ok(
                MessageView::ReplitClientAudioStartEncoder(
                    s.subrange(0, 10),
                    s[4] != 0,
                    s[5],
                    be16(s, 6) as u16,
                    be16(s, 8) as u16,
                ),
            )
        }
    } else if s[1] == 1 {
        if be16(s, 2) != 0 {
            Err(ErrorView::Other(ParseErrorView::FrameRequestLength(be16(s, 2))))
        } else {
            Ok(MessageView::ReplitClientAudioFrameRequest(s.subrange(0, 4)))
        }
    } else if s[1] == 2 {
        if be16(s, 2) != 0 {
            Err(ErrorView::Other(ParseErrorView::ContinuousUpdatesLength(be16(s, 2))))
        } else {
            Ok(MessageView::ReplitClientAudioStartContinuousUpdates(s.subrange(0, 4)))
        }
    } else {
        Err(ErrorView::Other(ParseErrorView::ReplitSubmessage(s[1], s)))
    }
}

/// The QEMU client message at the start of `s`.
pub open spec fn qemu_message(s: Seq<u8>) -> Result<MessageView, ErrorView> {
    if s.len() < 2 {
        Err(ErrorView::Incomplete)
    } else if s[1] != 0 {
        Err(ErrorView::Other(ParseErrorView::QemuSubmessage(s[1], s)))
    } else {
        match first_bytes(s, 12) {
            Ok(payload) => Ok(MessageView::QemuClientMessage(payload)),
            Err(e) => Err(e),
        }
    }
}

/// How many bytes the message with the given id takes at the start of `s`, for the messages whose
/// length is fixed or counted in their first bytes. `None` if those bytes are not there yet.
pub open spec fn counted_length(s: Seq<u8>) -> Option<int> {
    let id = s[0];
    if id == 0 {
        Some(20)
    } else if id == 2 {
        // The number of encodings, of four bytes each.
        if s.len() < 4 {
            None
        } else {
            Some(4 + 4 * be16(s, 2))
        }
    } else if id == 3 {
        Some(10)
    } else if id == 4 {
        Some(8)
    } else if id == 5 {
        Some(6)
    } else if id == 150 {
        Some(10)
    } else if id == 248 {
        // The length of the fence's payload.
        if s.len() < 9 {
            None
        } else {
            Some(9 + s[8])
        }
    } else {
        // id == 251: the number of screens, of 16 bytes each.
        if s.len() < 7 {
            None
        } else {
            Some(8 + 16 * s[6])
        }
    }
}

/// The client message at the start of `s`.
pub open spec fn client_message(s: Seq<u8>) -> Result<MessageView, ErrorView> {
    if s.len() == 0 {
        Err(ErrorView::Incomplete)
    } else {
        let id = s[0];
        if id == 6 {
            match cut_text(s) {
                Ok(payload) => Ok(MessageView::ClientCutText(payload)),
                Err(e) => Err(e),
            }
        } else if id == REPLIT_AUDIO_MESSAGE {
            replit_audio_message(s)
        } else if id == 255 {
            qemu_message(s)
        } else if id == 0 || id == 2 || id == 3 || id == 4 || id == 5 || id == 150 || id == 248
            || id == 251 {
            match counted_length(s) {
                None => Err(ErrorView::Incomplete),
                Some(n) => match first_bytes(s, n) {
                    Err(e) => Err(e),
                    Ok(payload) => Ok(
                        if id == 0 {
                            MessageView::SetPixelFormat(payload)
                        } else if id == 2 {
                            MessageView::SetEncodings(payload)
                        } else if id == 3 {
                            MessageView::FramebufferUpdateRequest(payload)
                        } else if id == 4 {
                            MessageView::KeyEvent(payload)
                        } else if id == 5 {
                            MessageView::PointerEvent(payload)
                        } else if id == 150 {
                            MessageView::EnableContinuousUpdates(payload)
                        } else if id == 248 {
                            MessageView::ClientFence(payload)
                        } else {
                            MessageView::SetDesktopSize(payload)
                        },
                    ),
                },
            }
        } else {
            Err(ErrorView::Other(ParseErrorView::ClientMessage(id, s)))
        }
    }
}

/// Reads the Replit Audio client message at the start of the buffer.
fn read_replit_audio_message(src: &mut Cursor<'_>) -> (r: Result<Message, Error>)
    requires
        old(src).pos == 0,
    ensures
        replit_audio_message(old(src).data@) == (match r {
            Ok(message) => Ok::<MessageView, ErrorView>(message@),
            Err(e) => Err(e@),
        }),
{
    skip(src, 1)?; // id
    let submessage_id: u8 = get_u8(src)?;
    let length: usize = get_u16(src)? as usize;
    match submessage_id {
        0 => {
            if length != 6 {
                return Err(Error::Other(ParseError::StartEncoderLength(length)));
            }
            let enabled = get_u8(src)? != 0;
            let channels: u8 = get_u8(src)?;
            let codec: u16 = get_u16(src)?;
            let kbps: u16 = get_u16(src)?;
            src.set_position(0);
            let payload = read_first(src, length + 4)?;
            Ok(Message::ReplitClientAudioStartEncoder(payload, enabled, channels, codec, kbps))
        },
        1 => {
            if length != 0 {
                return Err(Error::Other(ParseError::FrameRequestLength(length)));
            }
            src.set_position(0);
            let payload = read_first(src, length + 4)?;
            Ok(Message::ReplitClientAudioFrameRequest(payload))
        },
        2 => {
            if length != 0 {
                return Err(Error::Other(ParseError::ContinuousUpdatesLength(length)));
            }
            src.set_position(0);
            let payload = read_first(src, length + 4)?;
            Ok(Message::ReplitClientAudioStartContinuousUpdates(payload))
        },
        submessage_id => Err(
            Error::Other(ParseError::ReplitSubmessage(submessage_id, slice_to_vec(src.get_ref()))),
        ),
    }
}

/// Reads the QEMU client message at the start of the buffer.
fn read_qemu_message(src: &mut Cursor<'_>) -> (r: Result<Message, Error>)
    requires
        old(src).pos == 0,
    ensures
        qemu_message(old(src).data@) == (match r {
            Ok(message) => Ok::<MessageView, ErrorView>(message@),
            Err(e) => Err(e@),
        }),
{
    skip(src, 1)?; // id
    match get_u8(src)? {
        0 => {
            // QEMU Extended Key Event Message.
            src.set_position(0);
            let payload = read_first(src, 12)?;
            Ok(Message::QemuClientMessage(payload))
        },
        submessage_id => Err(
            Error::Other(ParseError::QemuSubmessage(submessage_id, slice_to_vec(src.get_ref()))),
        ),
    }
}

impl Message {
    /// Gets the raw u8 array representation of the message.
    pub fn into_data(self) -> (data: Vec<u8>)
        ensures
            data@ == self@.payload(),
    {
        match self {
            Message::SetPixelFormat(payload)
            | Message::SetEncodings(payload)
            | Message::FramebufferUpdateRequest(payload)
            | Message::KeyEvent(payload)
            | Message::PointerEvent(payload)
            | Message::ClientCutText(payload)
            | Message::EnableContinuousUpdates(payload)
            | Message::ClientFence(payload)
            | Message::SetDesktopSize(payload)
            | Message::ReplitClientAudioStartEncoder(payload, _, _, _, _)
            | Message::ReplitClientAudioFrameRequest(payload)
            | Message::ReplitClientAudioStartContinuousUpdates(payload)
            | Message::QemuClientMessage(payload) => payload,
        }
    }

    /// Gets the length of the raw u8 array representation of the message.
    pub fn len(&self) -> (len: usize)
        ensures
            len == self@.payload().len(),
    {
        match self {
            Message::SetPixelFormat(payload)
            | Message::SetEncodings(payload)
            | Message::FramebufferUpdateRequest(payload)
            | Message::KeyEvent(payload)
            | Message::PointerEvent(payload)
            | Message::ClientCutText(payload)
            | Message::EnableContinuousUpdates(payload)
            | Message::ClientFence(payload)
            | Message::SetDesktopSize(payload)
            | Message::ReplitClientAudioStartEncoder(payload, _, _, _, _)
            | Message::ReplitClientAudioFrameRequest(payload)
            | Message::ReplitClientAudioStartContinuousUpdates(payload)
            | Message::QemuClientMessage(payload) => payload.len(),
        }
    }

    /// Tries to parse the message at the start of the buffer of `src`.
    ///
    /// # Errors
    ///
    /// If there is not enough data in `src` to parse a complete message, it will return an
    /// [`Error::Incomplete`].
    pub fn parse(src: &mut Cursor<'_>) -> (r: Result<Message, Error>)
        requires
            old(src).pos == 0,
        ensures
            client_message(old(src).data@) == (match r {
                Ok(message) => Ok::<MessageView, ErrorView>(message@),
                Err(e) => Err(e@),
            }),
    {
        match peek_u8(src)? {
            0 => {
                let payload = read_first(src, 20)?;
                Ok(Message::SetPixelFormat(payload))
            },
            2 => {
                skip(src, 2)?; // id + padding
                let number_of_encodings: usize = get_u16(src)? as usize;
                src.set_position(0);
                let payload = read_first(src, 4 + 4 * number_of_encodings)?;
                Ok(Message::SetEncodings(payload))
            },
            3 => {
                let payload = read_first(src, 10)?;
                Ok(Message::FramebufferUpdateRequest(payload))
            },
            4 => {
                let payload = read_first(src, 8)?;
                Ok(Message::KeyEvent(payload))
            },
            5 => {
                let payload = read_first(src, 6)?;
                Ok(Message::PointerEvent(payload))
            },
            6 => {
                let payload = read_cut_text(src)?;
                Ok(Message::ClientCutText(payload))
            },
            150 => {
                let payload = read_first(src, 10)?;
                Ok(Message::EnableContinuousUpdates(payload))
            },
            245 => read_replit_audio_message(src),
            248 => {
                skip(src, 8)?; // id, padding, flags
                let length: usize = get_u8(src)? as usize;
                let len: usize = src.position();
                src.set_position(0);
                let payload = read_first(src, len + length)?;
                Ok(Message::ClientFence(payload))
            },
            251 => {
                skip(src, 6)?; // id, padding, width, height
                let number_of_screens: usize = get_u8(src)? as usize;
                let len: usize = src.position();
                src.set_position(0);
                let payload = read_first(src, len + 1 + 16 * number_of_screens)?;
                Ok(Message::SetDesktopSize(payload))
            },
            255 => read_qemu_message(src),
            message_id => Err(
                Error::Other(ParseError::ClientMessage(message_id, slice_to_vec(src.get_ref()))),
            ),
        }
    }
}

/// The encodings that a SetEncodings message lists: two's complement numbers behind the first four
/// bytes.
pub open spec fn encodings(payload: Seq<u8>) -> Seq<int> {
    Seq::new(((payload.len() - 4) / 4) as nat, |i: int| be_i32(payload, 4 + 4 * i))
}

/// Whether a SetEncodings message holds whole encodings only. Every message that was parsed does.
pub open spec fn lists_encodings(payload: Seq<u8>) -> bool {
    payload.len() >= 4 && payload.len() % 4 == 0
}

/// The numbers, each of them behind a space.
pub open spec fn spaced(numbers: Seq<int>) -> Seq<char>
    decreases numbers.len(),
{
    if numbers.len() == 0 {
        Seq::empty()
    } else {
        spaced(numbers.drop_last()) + " "@ + signed_decimal(numbers.last())
    }
}

impl MessageView {
    /// The name of the message.
    pub open spec fn name(self) -> Seq<char> {
        match self {
            MessageView::SetPixelFormat(_) => "SetPixelFormat"@,
            MessageView::SetEncodings(_) => "SetEncodings"@,
            MessageView::FramebufferUpdateRequest(_) => "FramebufferUpdateRequest"@,
            MessageView::KeyEvent(_) => "KeyEvent"@,
            MessageView::PointerEvent(_) => "PointerEvent"@,
            MessageView::ClientCutText(_) => "ClientCutText"@,
            MessageView::EnableContinuousUpdates(_) => "EnableContinuousUpdates"@,
            MessageView::ClientFence(_) => "ClientFence"@,
            MessageView::SetDesktopSize(_) => "SetDesktopSize"@,
            MessageView::QemuClientMessage(_) => "QemuClientMessage"@,
            MessageView::ReplitClientAudioStartEncoder(_, _, _, _, _) =>
                "ReplitClientAudioStartEncoder"@,
            MessageView::ReplitClientAudioFrameRequest(_) => "ReplitClientAudioFrameRequest"@,
            MessageView::ReplitClientAudioStartContinuousUpdates(_) =>
                "ReplitClientAudioStartContinuousUpdates"@,
        }
    }

    /// The message as people read it: the encodings as numbers, everything else as bytes.
    pub open spec fn text(self) -> Seq<char> {
        match self {
            MessageView::SetEncodings(payload) => "SetEncodings("@ + spaced(encodings(payload))
                + " )"@,
            MessageView::ReplitClientAudioStartEncoder(payload, enabled, channels, codec, kbps) =>
                self.name() + "("@ + byte_list(payload) + ", "@ + truth(enabled) + ", "@ + decimal(
                channels as nat,
            ) + ", "@ + decimal(codec as nat) + ", "@ + decimal(kbps as nat) + ")"@,
            _ => self.name() + "("@ + byte_list(self.payload()) + ")"@,
        }
    }
}

fn encodings_text(payload: &[u8]) -> (text: String)
    requires
        lists_encodings(payload@),
    ensures
        text@ == "SetEncodings("@ + spaced(encodings(payload@)) + " )"@,
{
    let mut text = "SetEncodings(".to_owned();
    let mut i: usize = 4;
    let ghost numbers = encodings(payload@);
    while i < payload.len()
        invariant
            lists_encodings(payload@),
            4 <= i <= payload@.len(),
            i % 4 == 0,
            numbers == encodings(payload@),
            text@ == "SetEncodings("@ + spaced(numbers.subrange(0, (i - 4) / 4)),
        decreases payload@.len() - i,
    {
        let number: i32 = encoding_at(payload, i);
        text.append(" ");
        push_signed_decimal(&mut text, number as i64);
        proof {
            let k = (i - 4) / 4;
            let head = numbers.subrange(0, k + 1);
            assert(head.drop_last() =~= numbers.subrange(0, k));
            assert(numbers[k] == be_i32(payload@, 4 + 4 * k));
            assert(text@ =~= "SetEncodings("@ + spaced(head));
        }
        i = i + 4;
    }
    assert(numbers.subrange(0, numbers.len() as int) =~= numbers);
    text.append(" )");
    text
}

/// The encoding at `i`.
pub fn encoding_at(payload: &[u8], i: usize) -> (number: i32)
    requires
        i + 4 <= payload@.len(),
    ensures
        number == be_i32(payload@, i as int),
{
    let b0: u32 = payload[i] as u32;
    let b1: u32 = payload[i + 1] as u32;
    let b2: u32 = payload[i + 2] as u32;
    let b3: u32 = payload[i + 3] as u32;
    let v: u32 = (b0 * 0x100 + b1) * 0x1_0000 + (b2 * 0x100 + b3);
    if v < 0x8000_0000 {
        v as i32
    } else {
        (v as i64 - 0x1_0000_0000) as i32
    }
}

fn named(name: &str, payload: &[u8]) -> (text: String)
    ensures
        text@ == name@ + "("@ + byte_list(payload@),
{
    let mut text = name.to_owned();
    text.append("(");
    push_byte_list(&mut text, payload);
    text
}

impl Message {
    /// The message as people read it: the encodings as numbers, everything else as bytes.
    pub fn to_string(&self) -> (text: String)
        requires
            self@ matches MessageView::SetEncodings(payload) ==> lists_encodings(payload),
        ensures
            text@ == self@.text(),
    {
        let mut text = match self {
            Message::SetEncodings(payload) => {
                return encodings_text(payload);
            },
            Message::SetPixelFormat(payload) => named("SetPixelFormat", payload),
            Message::FramebufferUpdateRequest(payload) => named(
                "FramebufferUpdateRequest",
                payload,
            ),
            Message::KeyEvent(payload) => named("KeyEvent", payload),
            Message::PointerEvent(payload) => named("PointerEvent", payload),
            Message::ClientCutText(payload) => named("ClientCutText", payload),
            Message::EnableContinuousUpdates(payload) => named("EnableContinuousUpdates", payload),
            Message::ClientFence(payload) => named("ClientFence", payload),
            Message::SetDesktopSize(payload) => named("SetDesktopSize", payload),
            Message::QemuClientMessage(payload) => named("QemuClientMessage", payload),
            Message::ReplitClientAudioStartEncoder(payload, enabled, channels, codec, kbps) => {
                let mut text = named("ReplitClientAudioStartEncoder", payload);
                text.append(", ");
                push_truth(&mut text, *enabled);
                text.append(", ");
                push_decimal(&mut text, *channels as u64);
                text.append(", ");
                push_decimal(&mut text, *codec as u64);
                text.append(", ");
                push_decimal(&mut text, *kbps as u64);
                text
            },
            Message::ReplitClientAudioFrameRequest(payload) => named(
                "ReplitClientAudioFrameRequest",
                payload,
            ),
            Message::ReplitClientAudioStartContinuousUpdates(payload) => named(
                "ReplitClientAudioStartContinuousUpdates",
                payload,
            ),
        };
        text.append(")");
        text
    }
}

} // verus!
