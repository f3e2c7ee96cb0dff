//! Parsers for RFB messages.

pub mod client;
pub mod io;
pub mod layout;
pub mod server;
pub mod stream;

use vstd::prelude::*;
use vstd::string::StringExecFns;

use crate::text::{
    byte_list, decimal, push_byte_list, push_decimal, push_signed_decimal, signed_decimal,
};
use self::io::be16;

verus! {

/// What is wrong with bytes that can never become a message.
#[derive(Debug)]
pub enum ParseError {
    /// The announced length is over [`io::MAX_MESSAGE_LENGTH`].
    MessageTooLong(usize),
    /// A StartEncoder message whose payload is not 6 bytes long.
    StartEncoderLength(usize),
    /// A FrameRequest message whose payload is not empty.
    FrameRequestLength(usize),
    /// A StartContinuousUpdates message whose payload is not empty.
    ContinuousUpdatesLength(usize),
    /// A Replit Audio client message with an unknown submessage id, and the bytes at hand.
    ReplitSubmessage(u8, Vec<u8>),
    /// A QEMU client message with an unknown submessage id, and the bytes at hand.
    QemuSubmessage(u8, Vec<u8>),
    /// A client message with an unknown id, and the bytes at hand.
    ClientMessage(u8, Vec<u8>),
    /// A server message with an unknown id.
    ServerMessage(u8),
    /// A rectangle with an unknown encoding.
    Encoding(i32),
    /// A Tight rectangle with an unknown filter.
    TightFilter(u8),
    /// A VMware cursor of an unknown type.
    CursorType(u8),
}

/// An error for the message parsers. `Incomplete` is used to signal that the buffer from where the
/// message is being parsed does not contain enough data to parse a full message.
#[derive(Debug)]
pub enum Error {
    Incomplete,
    Other(ParseError),
}

/// The mathematical content of a [`ParseError`].
pub enum ParseErrorView {
    MessageTooLong(int),
    StartEncoderLength(int),
    FrameRequestLength(int),
    ContinuousUpdatesLength(int),
    ReplitSubmessage(u8, Seq<u8>),
    QemuSubmessage(u8, Seq<u8>),
    ClientMessage(u8, Seq<u8>),
    ServerMessage(u8),
    Encoding(i32),
    TightFilter(u8),
    CursorType(u8),
}

/// The mathematical content of an [`Error`].
pub enum ErrorView {
    Incomplete,
    Other(ParseErrorView),
}

impl View for ParseError {
    type V = ParseErrorView;

    open spec fn view(&self) -> ParseErrorView {
        match *self {
            ParseError::MessageTooLong(n) => ParseErrorView::MessageTooLong(n as int),
            ParseError::StartEncoderLength(n) => ParseErrorView::StartEncoderLength(n as int),
            ParseError::FrameRequestLength(n) => ParseErrorView::FrameRequestLength(n as int),
            ParseError::ContinuousUpdatesLength(n) => ParseErrorView::ContinuousUpdatesLength(
                n as int,
            ),
            ParseError::ReplitSubmessage(id, data) => ParseErrorView::ReplitSubmessage(id, data@),
            ParseError::QemuSubmessage(id, data) => ParseErrorView::QemuSubmessage(id, data@),
            ParseError::ClientMessage(id, data) => ParseErrorView::ClientMessage(id, data@),
            ParseError::ServerMessage(id) => ParseErrorView::ServerMessage(id),
            ParseError::Encoding(encoding) => ParseErrorView::Encoding(encoding),
            ParseError::TightFilter(filter) => ParseErrorView::TightFilter(filter),
            ParseError::CursorType(kind) => ParseErrorView::CursorType(kind),
        }
    }
}

impl View for Error {
    type V = ErrorView;

    open spec fn view(&self) -> ErrorView {
        match *self {
            Error::Incomplete => ErrorView::Incomplete,
            Error::Other(reason) => ErrorView::Other(reason@),
        }
    }
}

impl ParseErrorView {
    /// What to tell people about the error.
    pub open spec fn text(self) -> Seq<char> {
        match self {
            ParseErrorView::MessageTooLong(n) =>
                "message size is larger than the allowed limit: "@ + decimal(n as nat),
            ParseErrorView::StartEncoderLength(n) => "unexpected StartEncoder length: got "@
                + decimal(n as nat) + ", expected 6"@,
            ParseErrorView::FrameRequestLength(n) => "unexpected FrameRequest length: got "@
                + decimal(n as nat) + ", expected 0"@,
            ParseErrorView::ContinuousUpdatesLength(n) =>
                "unexpected EnableContinuousUpdates length: got "@ + decimal(n as nat)
                + ", expected 0"@,
            ParseErrorView::ReplitSubmessage(id, data) =>
                "unsupported Replit Client submessage id: "@ + decimal(id as nat) + " "@
                + byte_list(data),
            ParseErrorView::QemuSubmessage(id, data) => "unsupported QEMU Client submessage id: "@
                + decimal(id as nat) + " "@ + byte_list(data),
            ParseErrorView::ClientMessage(id, data) => "unsupported client message id: "@ + decimal(
                id as nat,
            ) + " "@ + byte_list(data),
            ParseErrorView::ServerMessage(id) => "unsupported server message id: "@ + decimal(
                id as nat,
            ),
            ParseErrorView::Encoding(encoding) => "unsupported encoding type: "@ + signed_decimal(
                encoding as int,
            ),
            ParseErrorView::TightFilter(filter) => "unsupported Tight filter: "@ + decimal(
                filter as nat,
            ),
            ParseErrorView::CursorType(kind) => "unsupported VMWare Cursor type: "@ + decimal(
                kind as nat,
            ),
        }
    }
}

impl ErrorView {
    /// What to tell people about the error.
    pub open spec fn text(self) -> Seq<char> {
        match self {
            ErrorView::Incomplete => "stream ended early"@,
            ErrorView::Other(reason) => reason.text(),
        }
    }
}

fn numbered(before: &str, n: u64, after: &str) -> (text: String)
    ensures
        text@ == before@ + decimal(n as nat) + after@,
{
    let mut text = before.to_owned();
    push_decimal(&mut text, n);
    text.append(after);
    text
}

fn quoting(before: &str, id: u8, data: &[u8]) -> (text: String)
    ensures
        text@ == before@ + decimal(id as nat) + " "@ + byte_list(data@),
{
    let mut text = numbered(before, id as u64, " ");
    push_byte_list(&mut text, data);
    text
}

impl ParseError {
    /// What to tell people about the error.
    pub fn to_string(&self) -> (text: String)
        ensures
            text@ == self@.text(),
    {
        let text = match self {
            ParseError::MessageTooLong(n) => numbered(
                "message size is larger than the allowed limit: ",
                *n as u64,
                "",
            ),
            ParseError::StartEncoderLength(n) => numbered(
                "unexpected StartEncoder length: got ",
                *n as u64,
                ", expected 6",
            ),
            ParseError::FrameRequestLength(n) => numbered(
                "unexpected FrameRequest length: got ",
                *n as u64,
                ", expected 0",
            ),
            ParseError::ContinuousUpdatesLength(n) => numbered(
                "unexpected EnableContinuousUpdates length: got ",
                *n as u64,
                ", expected 0",
            ),
            ParseError::ReplitSubmessage(id, data) => quoting(
                "unsupported Replit Client submessage id: ",
                *id,
                data,
            ),
            ParseError::QemuSubmessage(id, data) => quoting(
                "unsupported QEMU Client submessage id: ",
                *id,
                data,
            ),
            ParseError::ClientMessage(id, data) => quoting(
                "unsupported client message id: ",
                *id,
                data,
            ),
            ParseError::ServerMessage(id) => numbered(
                "unsupported server message id: ",
                *id as u64,
                "",
            ),
            ParseError::Encoding(encoding) => {
                let mut text = "unsupported encoding type: ".to_owned();
                push_signed_decimal(&mut text, *encoding as i64);
                text
            },
            ParseError::TightFilter(filter) => numbered(
                "unsupported Tight filter: ",
                *filter as u64,
                "",
            ),
            ParseError::CursorType(kind) => numbered(
                "unsupported VMWare Cursor type: ",
                *kind as u64,
                "",
            ),
        };
        proof {
            reveal_strlit("");
            assert(text@ =~= self@.text());
        }
        text
    }
}

impl Error {
    /// What to tell people about the error.
    pub fn to_string(&self) -> (text: String)
        ensures
            text@ == self@.text(),
    {
        match self {
            Error::Incomplete => "stream ended early".to_owned(),
            Error::Other(reason) => reason.to_string(),
        }
    }
}

/// A structure that represents how pixel values are represented in `FramebufferUpdate` messages.
///
/// This is documented at
/// https://github.com/rfbproto/rfbproto/blob/master/rfbproto.rst#setpixelformat
#[derive(Debug)]
pub struct PixelFormat {
    pub bits_per_pixel: u8,
    pub depth: u8,
    pub big_endian_flag: u8,
    pub true_colour_flag: u8,
    pub red_max: u16,
    pub green_max: u16,
    pub blue_max: u16,
    pub red_shift: u8,
    pub green_shift: u8,
    pub blue_shift: u8,
    pub padding: [u8; 3],
}

impl PixelFormat {
    /// Reads a pixel format from the first 13 bytes of `buf`.
    pub fn new(buf: &[u8]) -> (format: PixelFormat)
        requires
            buf@.len() >= 13,
        ensures
            format.bits_per_pixel == buf@[0],
            format.depth == buf@[1],
            format.big_endian_flag == buf@[2],
            format.true_colour_flag == buf@[3],
            format.red_max == be16(buf@, 4),
            format.green_max == be16(buf@, 6),
            format.blue_max == be16(buf@, 8),
            format.red_shift == buf@[10],
            format.green_shift == buf@[11],
            format.blue_shift == buf@[12],
            format.padding@ == seq![0u8, 0u8, 0u8],
    {
        PixelFormat {
            bits_per_pixel: buf[0],
            depth: buf[1],
            big_endian_flag: buf[2],
            true_colour_flag: buf[3],
            red_max: buf[4] as u16 * 0x100 + buf[5] as u16,
            green_max: buf[6] as u16 * 0x100 + buf[7] as u16,
            blue_max: buf[8] as u16 * 0x100 + buf[9] as u16,
            red_shift: buf[10],
            green_shift: buf[11],
            blue_shift: buf[12],
            padding: [0, 0, 0],
        }
    }
}

} // verus!
