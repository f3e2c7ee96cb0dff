//! Messages that are sent from the server to the client.

use vstd::prelude::*;

use super::io::{
    be16, be32, be_i32, check_message_length, compact, cut_text, first_bytes, get_compact, get_i32,
    get_u16, get_u32, get_u8, peek_u8, read_first, read_cut_text, skip, Cursor, MAX_MESSAGE_LENGTH,
};
use super::{Error, ErrorView, ParseError, ParseErrorView};

verus! {

/// Represents a message that is sent from the server to the client.
#[derive(Debug)]
pub enum Message {
    FramebufferUpdate(Vec<u8>),
    SetColorMapEntries(Vec<u8>),
    Bell(Vec<u8>),
    ServerCutText(Vec<u8>),
    // Extensions
    EndOfContinuousUpdates(Vec<u8>),
    ServerFence(Vec<u8>),
    ReplitAudioServerMessage(Vec<u8>),
}

/// The mathematical content of a [`Message`].
pub enum MessageView {
    FramebufferUpdate(Seq<u8>),
    SetColorMapEntries(Seq<u8>),
    Bell(Seq<u8>),
    ServerCutText(Seq<u8>),
    EndOfContinuousUpdates(Seq<u8>),
    ServerFence(Seq<u8>),
    ReplitAudioServerMessage(Seq<u8>),
}

impl MessageView {
    /// The raw bytes of the message.
    pub open spec fn payload(self) -> Seq<u8> {
        match self {
            MessageView::FramebufferUpdate(payload) => payload,
            MessageView::SetColorMapEntries(payload) => payload,
            MessageView::Bell(payload) => payload,
            MessageView::ServerCutText(payload) => payload,
            MessageView::EndOfContinuousUpdates(payload) => payload,
            MessageView::ServerFence(payload) => payload,
            MessageView::ReplitAudioServerMessage(payload) => payload,
        }
    }
}

impl View for Message {
    type V = MessageView;

    open spec fn view(&self) -> MessageView {
        match *self {
            Message::FramebufferUpdate(payload) => MessageView::FramebufferUpdate(payload@),
            Message::SetColorMapEntries(payload) => MessageView::SetColorMapEntries(payload@),
            Message::Bell(payload) => MessageView::Bell(payload@),
            Message::ServerCutText(payload) => MessageView::ServerCutText(payload@),
            Message::EndOfContinuousUpdates(payload) => MessageView::EndOfContinuousUpdates(
                payload@,
            ),
            Message::ServerFence(payload) => MessageView::ServerFence(payload@),
            Message::ReplitAudioServerMessage(payload) => MessageView::ReplitAudioServerMessage(
                payload@,
            ),
        }
    }
}

/// Where a rectangle ends.
pub enum RectangleEnd {
    /// The next rectangle starts here.
    Next(int),
    /// This was the last rectangle of the update, whatever the update announced.
    Last(int),
    /// There is no telling.
    Unknown(ErrorView),
}

/// A rectangle that takes `n` more bytes from `p` on.
pub open spec fn rest_of_rectangle(s: Seq<u8>, p: int, n: int) -> RectangleEnd {
    if s.len() < p + n {
        RectangleEnd::Unknown(ErrorView::Incomplete)
    } else {
        RectangleEnd::Next(p + n)
    }
}

/// Compressed pixels at `p`: a compact length and that many bytes.
pub open spec fn compressed_pixels(s: Seq<u8>, p: int) -> RectangleEnd {
    match compact(s, p) {
        Some((length, start)) => rest_of_rectangle(s, start, length),
        None => RectangleEnd::Unknown(ErrorView::Incomplete),
    }
}

/// Pixels of the Tight encoding at `p` that take `size` bytes when they are not compressed. Fewer
/// than 12 bytes are not worth compressing.
pub open spec fn tight_pixels(s: Seq<u8>, p: int, size: int) -> RectangleEnd {
    if size < 12 {
        rest_of_rectangle(s, p, size)
    } else {
        compressed_pixels(s, p)
    }
}

/// The number of bytes in a row of `width` pixels of `bits` bits each.
pub open spec fn row_size(width: int, bits: int) -> int {
    (width * bits + 7) / 8
}

/// Pixels of the Tight encoding at `p`, run through `filter`.
pub open spec fn tight_filtered(
    s: Seq<u8>,
    p: int,
    width: int,
    height: int,
    filter: u8,
) -> RectangleEnd {
    if filter == 0 {
        // CopyFilter
        tight_pixels(s, p, width * height * 3)
    } else if filter == 1 {
        // PaletteFilter
        if s.len() <= p {
            RectangleEnd::Unknown(ErrorView::Incomplete)
        } else {
            let colors = s[p] + 1;
            let pixels = p + 1 + 3 * colors;
            if s.len() < pixels {
                RectangleEnd::Unknown(ErrorView::Incomplete)
            } else {
                let bits = if colors <= 2 {
                    1int
                } else {
                    8int
                };
                tight_pixels(s, pixels, row_size(width, bits) * height)
            }
        }
    } else {
        RectangleEnd::Unknown(ErrorView::Other(ParseErrorView::TightFilter(filter)))
    }
}

/// A rectangle in the Tight encoding, whose compression control byte is at `p`.
pub open spec fn tight_rectangle(s: Seq<u8>, p: int, width: int, height: int) -> RectangleEnd {
    if s.len() <= p {
        RectangleEnd::Unknown(ErrorView::Incomplete)
    } else {
        let control = s[p] / 16;
        if control == 8 {
            // FillCompression
            rest_of_rectangle(s, p + 1, 3)
        } else if control == 9 {
            // JpegCompression
            compressed_pixels(s, p + 1)
        } else if (control / 4) % 2 == 0 {
            tight_filtered(s, p + 1, width, height, 0)
        } else if s.len() <= p + 1 {
            RectangleEnd::Unknown(ErrorView::Incomplete)
        } else {
            tight_filtered(s, p + 2, width, height, s[p + 1])
        }
    }
}

/// A rectangle in the ZRLE encoding at `p`: a length and that many bytes.
pub open spec fn zrle_rectangle(s: Seq<u8>, p: int) -> RectangleEnd {
    if s.len() < p + 4 {
        RectangleEnd::Unknown(ErrorView::Incomplete)
    } else if be32(s, p) > MAX_MESSAGE_LENGTH {
        RectangleEnd::Unknown(ErrorView::Other(ParseErrorView::MessageTooLong(be32(s, p))))
    } else {
        rest_of_rectangle(s, p + 4, be32(s, p))
    }
}

/// A VMware cursor at `p`.
pub open spec fn vmware_cursor(
    s: Seq<u8>,
    p: int,
    width: int,
    height: int,
    bytes_per_pixel: int,
) -> RectangleEnd {
    if s.len() <= p {
        RectangleEnd::Unknown(ErrorView::Incomplete)
    } else if s[p] == 0 {
        rest_of_rectangle(s, p + 1, 1 + 2 * (width * height * bytes_per_pixel))
    } else if s[p] == 1 {
        rest_of_rectangle(s, p + 1, 1 + width * height * 4)
    } else {
        RectangleEnd::Unknown(ErrorView::Other(ParseErrorView::CursorType(s[p])))
    }
}

/// The content of a rectangle in the given encoding, which starts at `p`.
pub open spec fn rectangle_content(
    s: Seq<u8>,
    p: int,
    width: int,
    height: int,
    encoding: int,
    bytes_per_pixel: int,
) -> RectangleEnd {
    if encoding == 0 {
        // Raw
        rest_of_rectangle(s, p, width * height * bytes_per_pixel)
    } else if encoding == 1 {
        // CopyRect
        rest_of_rectangle(s, p, 4)
    } else if encoding == 7 {
        tight_rectangle(s, p, width, height)
    } else if encoding == 16 {
        zrle_rectangle(s, p)
    } else if encoding == -224 {
        // LastRect
        RectangleEnd::Last(p)
    } else if encoding == -239 {
        // Cursor: the pixels and a bitmask
        rest_of_rectangle(s, p, width * height * bytes_per_pixel + row_size(width, 1) * height)
    } else if encoding == -258 {
        // QEMU Extended Key Event
        RectangleEnd::Next(p)
    } else if encoding == -308 {
        // ExtendedDesktopSize
        if s.len() <= p {
            RectangleEnd::Unknown(ErrorView::Incomplete)
        } else {
            rest_of_rectangle(s, p + 1, 3 + s[p] * 16)
        }
    } else if encoding == 0x574d5664 {
        vmware_cursor(s, p, width, height, bytes_per_pixel)
    } else {
        RectangleEnd::Unknown(ErrorView::Other(ParseErrorView::Encoding(encoding as i32)))
    }
}

/// A rectangle that starts at `p`: position, size and encoding in 12 bytes, and the content.
pub open spec fn rectangle(s: Seq<u8>, p: int, bytes_per_pixel: int) -> RectangleEnd {
    if s.len() < p + 12 {
        RectangleEnd::Unknown(ErrorView::Incomplete)
    } else {
        rectangle_content(
            s,
            p + 12,
            be16(s, p + 4),
            be16(s, p + 6),
            be_i32(s, p + 8),
            bytes_per_pixel,
        )
    }
}

/// Where `n` rectangles end of which the first one starts at `p`.
pub open spec fn rectangles(s: Seq<u8>, p: int, n: nat, bytes_per_pixel: int) -> Result<
    int,
    ErrorView,
>
    decreases n,
{
    if n == 0 {
        Ok(p)
    } else {
        match rectangle(s, p, bytes_per_pixel) {
            RectangleEnd::Next(next) => rectangles(s, next, (n - 1) as nat, bytes_per_pixel),
            RectangleEnd::Last(end) => Ok(end),
            RectangleEnd::Unknown(e) => Err(e),
        }
    }
}

/// The framebuffer update at the start of `s`.
pub open spec fn framebuffer_update(s: Seq<u8>, bytes_per_pixel: int) -> Result<
    Seq<u8>,
    ErrorView,
> {
    if s.len() < 4 {
        Err(ErrorView::Incomplete)
    } else {
        match rectangles(s, 4, be16(s, 2) as nat, bytes_per_pixel) {
            Ok(end) => Ok(s.subrange(0, end)),
            Err(e) => Err(e),
        }
    }
}

/// The server message at the start of `s`, where a pixel takes `bytes_per_pixel` bytes.
pub open spec fn server_message(s: Seq<u8>, bytes_per_pixel: int) -> Result<
    MessageView,
    ErrorView,
> {
    if s.len() == 0 {
        Err(ErrorView::Incomplete)
    } else if s[0] == 0 {
        match framebuffer_update(s, bytes_per_pixel) {
            Ok(payload) => Ok(MessageView::FramebufferUpdate(payload)),
            Err(e) => Err(e),
        }
    } else if s[0] == 1 {
        if s.len() < 6 {
            Err(ErrorView::Incomplete)
        } else {
            match first_bytes(s, 6 + be16(s, 4) * 6) {
                Ok(payload) => Ok(MessageView::SetColorMapEntries(payload)),
                Err(e) => Err(e),
            }
        }
    } else if s[0] == 2 {
        Ok(MessageView::Bell(s.subrange(0, 1)))
    } else if s[0] == 3 {
        match cut_text(s) {
            Ok(payload) => Ok(MessageView::ServerCutText(payload)),
            Err(e) => Err(e),
        }
    } else if s[0] == 150 {
        Ok(MessageView::EndOfContinuousUpdates(s.subrange(0, 1)))
    } else if s[0] == 248 {
        if s.len() < 9 {
            Err(ErrorView::Incomplete)
        } else {
            match first_bytes(s, 9 + s[8]) {
                Ok(payload) => Ok(MessageView::ServerFence(payload)),
                Err(e) => Err(e),
            }
        }
    } else {
        Err(ErrorView::Other(ParseErrorView::ServerMessage(s[0])))
    }
}

/// What a step through a rectangle came to, and where it left the cursor.
pub open spec fn reached(r: Result<(), Error>, after: Cursor<'_>) -> RectangleEnd {
    match r {
        Ok(()) => RectangleEnd::Next(after.pos as int),
        Err(e) => RectangleEnd::Unknown(e@),
    }
}

/// Moves `n` bytes on, where `n` may be more than a buffer can hold.
fn skip_long(src: &mut Cursor<'_>, n: u128) -> (r: Result<(), Error>)
    requires
        old(src).pos <= old(src).data@.len(),
    ensures
        final(src).data == old(src).data,
        final(src).pos <= final(src).data@.len(),
        rest_of_rectangle(old(src).data@, old(src).pos as int, n as int) == reached(r, *final(src)),
{
    if n > src.remaining() as u128 {
        return Err(Error::Incomplete);
    }
    skip(src, n as usize)
}

fn skip_compressed(src: &mut Cursor<'_>) -> (r: Result<(), Error>)
    requires
        old(src).pos <= old(src).data@.len(),
    ensures
        final(src).data == old(src).data,
        final(src).pos <= final(src).data@.len(),
        compressed_pixels(old(src).data@, old(src).pos as int) == reached(r, *final(src)),
{
    let length: usize = get_compact(src)?;
    skip(src, length)
}

fn skip_tight_pixels(src: &mut Cursor<'_>, size: u128) -> (r: Result<(), Error>)
    requires
        old(src).pos <= old(src).data@.len(),
    ensures
        final(src).data == old(src).data,
        final(src).pos <= final(src).data@.len(),
        tight_pixels(old(src).data@, old(src).pos as int, size as int) == reached(r, *final(src)),
{
    if size < 12 {
        skip_long(src, size)
    } else {
        skip_compressed(src)
    }
}

/// The number of pixels fits in 32 bits.
proof fn lemma_area(width: u16, height: u16)
    ensures
        0 <= width * height <= 0xfffe_0001,
{
    assert(0 <= width * height <= 0xfffe_0001) by (nonlinear_arith)
        requires
            width <= 0xffff,
            height <= 0xffff,
    ;
}

fn skip_tight_filtered(src: &mut Cursor<'_>, width: u16, height: u16, filter: u8) -> (r: Result<
    (),
    Error,
>)
    requires
        old(src).pos <= old(src).data@.len(),
    ensures
        final(src).data == old(src).data,
        final(src).pos <= final(src).data@.len(),
        tight_filtered(
            old(src).data@,
            old(src).pos as int,
            width as int,
            height as int,
            filter,
        ) == reached(r, *final(src)),
{
    if filter == 0 {
        proof {
            lemma_area(width, height);
        }
        skip_tight_pixels(src, width as u128 * height as u128 * 3)
    } else if filter == 1 {
        let colors: usize = get_u8(src)? as usize + 1;
        skip(src, 3 * colors)?;
        let bits: u128 = if colors <= 2 {
            1
        } else {
            8
        };
        let row: u128 = (width as u128 * bits + 7) / 8;
        proof {
            assert(row * height <= 0xffff * 0xffff) by (nonlinear_arith)
                requires
                    row <= 0xffff,
                    height <= 0xffff,
            ;
        }
        skip_tight_pixels(src, row * height as u128)
    } else {
        Err(Error::Other(ParseError::TightFilter(filter)))
    }
}

fn skip_tight_rectangle(src: &mut Cursor<'_>, width: u16, height: u16) -> (r: Result<(), Error>)
    requires
        old(src).pos <= old(src).data@.len(),
    ensures
        final(src).data == old(src).data,
        final(src).pos <= final(src).data@.len(),
        tight_rectangle(old(src).data@, old(src).pos as int, width as int, height as int)
            == reached(r, *final(src)),
{
    let mut control: u8 = get_u8(src)?;
    assert(control >> 4 == control / 16 && ((control >> 4) & 0x4 == 0 <==> (control / 16 / 4) % 2
        == 0)) by (bit_vector);
    control = control >> 4;
    if control == 0x08 {
        skip(src, 3)
    } else if control == 0x09 {
        skip_compressed(src)
    } else {
        let mut filter: u8 = 0;
        if (control & 0x4) != 0 {
            filter = get_u8(src)?;
        }
        skip_tight_filtered(src, width, height, filter)
    }
}

fn skip_zrle_rectangle(src: &mut Cursor<'_>) -> (r: Result<(), Error>)
    requires
        old(src).pos <= old(src).data@.len(),
    ensures
        final(src).data == old(src).data,
        final(src).pos <= final(src).data@.len(),
        zrle_rectangle(old(src).data@, old(src).pos as int) == reached(r, *final(src)),
{
    let length: usize = get_u32(src)? as usize;
    check_message_length(length)?;
    skip(src, length)
}

/// Moves behind the rectangle at the position. `true` if no rectangle follows.
#[verifier::rlimit(30)]
fn skip_rectangle(src: &mut Cursor<'_>, bytes_per_pixel: usize) -> (r: Result<bool, Error>)
    requires
        old(src).pos <= old(src).data@.len(),
    ensures
        final(src).data == old(src).data,
        final(src).pos <= final(src).data@.len(),
        rectangle(old(src).data@, old(src).pos as int, bytes_per_pixel as int) == (match r {
            Ok(false) => RectangleEnd::Next(final(src).pos as int),
            Ok(true) => RectangleEnd::Last(final(src).pos as int),
            Err(e) => RectangleEnd::Unknown(e@),
        }),
{
    let _x: u16 = get_u16(src)?;
    let _y: u16 = get_u16(src)?;
    let width: u16 = get_u16(src)?;
    let height: u16 = get_u16(src)?;
    let encoding: i32 = get_i32(src)?;
    proof {
        lemma_area(width, height);
        assert(0 <= (width * height) * bytes_per_pixel <= 0xfffe_0001 * 0xffff_ffff_ffff_ffff)
            by (nonlinear_arith)
            requires
                0 <= width * height <= 0xfffe_0001,
                0 <= bytes_per_pixel <= 0xffff_ffff_ffff_ffff,
        ;
    }
    let area: u128 = width as u128 * height as u128;
    let pixels: u128 = area * bytes_per_pixel as u128;
    if encoding == 0 {
        // Raw
        skip_long(src, pixels)?;
    } else if encoding == 1 {
        // CopyRect
        skip(src, 4)?;
    } else if encoding == 7 {
        skip_tight_rectangle(src, width, height)?;
    } else if encoding == 16 {
        skip_zrle_rectangle(src)?;
    } else if encoding == -224 {
        // LastRect
        return Ok(true);
    } else if encoding == -239 {
        // Cursor
        skip_long(src, pixels)?;
        let row: u128 = (width as u128 + 7) / 8;
        proof {
            assert(0 <= row * height <= 0xffff * 0xffff) by (nonlinear_arith)
                requires
                    0 <= row <= 0xffff,
                    height <= 0xffff,
            ;
        }
        skip_long(src, row * height as u128)?;
    } else if encoding == -258 {
        // QEMU Extended Key Event
    } else if encoding == -308 {
        // ExtendedDesktopSize
        let number_of_screens: usize = get_u8(src)? as usize;
        skip(src, 3 + number_of_screens * 16)?;
    } else if encoding == 0x574d5664 {
        // VMware Cursor
        let cursor_type: u8 = get_u8(src)?;
        if cursor_type == 0 {
            skip_long(src, 1 + 2 * pixels)?;
        } else if cursor_type == 1 {
            skip_long(src, 1 + area * 4)?;
        } else {
            return Err(Error::Other(ParseError::CursorType(cursor_type)));
        }
    } else {
        return Err(Error::Other(ParseError::Encoding(encoding)));
    }
    Ok(false)
}

/// Reads the framebuffer update at the start of the buffer.
fn read_framebuffer_update(src: &mut Cursor<'_>, bytes_per_pixel: usize) -> (r: Result<
    Vec<u8>,
    Error,
>)
    requires
        old(src).pos == 0,
    ensures
        framebuffer_update(old(src).data@, bytes_per_pixel as int) == (match r {
            Ok(payload) => Ok::<Seq<u8>, ErrorView>(payload@),
            Err(e) => Err(e@),
        }),
{
    skip(src, 2)?; // id + padding
    let number_of_rectangles: u16 = get_u16(src)?;
    let ghost data = src.data@;
    let mut left: u16 = number_of_rectangles;
    while left > 0
        invariant
            src.data@ == data,
            src.pos <= data.len(),
            rectangles(data, 4, number_of_rectangles as nat, bytes_per_pixel as int) == rectangles(
                data,
                src.pos as int,
                left as nat,
                bytes_per_pixel as int,
            ),
            data.len() >= 4,
            number_of_rectangles == be16(data, 2),
            data == old(src).data@,
        decreases left,
    {
        if skip_rectangle(src, bytes_per_pixel)? {
            left = 0;
        } else {
            left = left - 1;
        }
    }
    let len: usize = src.position();
    src.set_position(0);
    read_first(src, len)
}

impl Message {
    /// Gets the raw u8 array representation of the message.
    pub fn into_data(self) -> (data: Vec<u8>)
        ensures
            data@ == self@.payload(),
    {
        match self {
            Message::FramebufferUpdate(payload)
            | Message::SetColorMapEntries(payload)
            | Message::Bell(payload)
            | Message::ServerCutText(payload)
            | Message::EndOfContinuousUpdates(payload)
            | Message::ReplitAudioServerMessage(payload)
            | Message::ServerFence(payload) => payload,
        }
    }

    /// Gets the length of the raw u8 array representation of the message.
    pub fn len(&self) -> (len: usize)
        ensures
            len == self@.payload().len(),
    {
        match self {
            Message::FramebufferUpdate(payload)
            | Message::SetColorMapEntries(payload)
            | Message::Bell(payload)
            | Message::ServerCutText(payload)
            | Message::EndOfContinuousUpdates(payload)
            | Message::ReplitAudioServerMessage(payload)
            | Message::ServerFence(payload) => payload.len(),
        }
    }

    /// Tries to parse the message at the start of the buffer of `src`, where a pixel takes
    /// `bytes_per_pixel` bytes.
    ///
    /// # Errors
    ///
    /// If there is not enough data in `src` to parse a complete message, it will return an
    /// [`Error::Incomplete`].
    pub fn parse(src: &mut Cursor<'_>, bytes_per_pixel: usize) -> (r: Result<Message, Error>)
        requires
            old(src).pos == 0,
        ensures
            server_message(old(src).data@, bytes_per_pixel as int) == (match r {
                Ok(message) => Ok::<MessageView, ErrorView>(message@),
                Err(e) => Err(e@),
            }),
    {
        match peek_u8(src)? {
            0 => {
                let payload = read_framebuffer_update(src, bytes_per_pixel)?;
                Ok(Message::FramebufferUpdate(payload))
            },
            1 => {
                skip(src, 4)?; // id, padding, first color
                let number_of_colors: usize = get_u16(src)? as usize;
                let len: usize = src.position();
                src.set_position(0);
                let payload = read_first(src, len + number_of_colors * 6)?;
                Ok(Message::SetColorMapEntries(payload))
            },
            2 => {
                let payload = read_first(src, 1)?;
                Ok(Message::Bell(payload))
            },
            3 => {
                let payload = read_cut_text(src)?;
                Ok(Message::ServerCutText(payload))
            },
            150 => {
                let payload = read_first(src, 1)?;
                Ok(Message::EndOfContinuousUpdates(payload))
            },
            248 => {
                skip(src, 8)?; // id, padding, flags
                let length: usize = get_u8(src)? as usize;
                let len: usize = src.position();
                src.set_position(0);
                let payload = read_first(src, len + length)?;
                Ok(Message::ServerFence(payload))
            },
            message_id => Err(Error::Other(ParseError::ServerMessage(message_id))),
        }
    }
}

} // verus!
