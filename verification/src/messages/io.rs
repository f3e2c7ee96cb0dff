//! Big-endian reads from a byte buffer that may not hold a whole message yet.

use vstd::prelude::*;
use vstd::slice::{slice_subrange, slice_to_vec};

use super::{Error, ErrorView, ParseError, ParseErrorView};

verus! {

/// The maximum message length. Anything larger than this will be rejected.
pub const MAX_MESSAGE_LENGTH: usize = 4194304;

/// A position in a borrowed byte buffer.
pub struct Cursor<'a> {
    pub data: &'a [u8],
    pub pos: usize,
}

/// The unsigned 16-bit big-endian number at `i`.
pub open spec fn be16(s: Seq<u8>, i: int) -> int {
    s[i] * 0x100 + s[i + 1]
}

/// The unsigned 32-bit big-endian number at `i`.
pub open spec fn be32(s: Seq<u8>, i: int) -> int {
    be16(s, i) * 0x1_0000 + be16(s, i + 2)
}

/// The two's complement 32-bit big-endian number at `i`.
pub open spec fn be_i32(s: Seq<u8>, i: int) -> int {
    if be32(s, i) < 0x8000_0000 {
        be32(s, i)
    } else {
        be32(s, i) - 0x1_0000_0000
    }
}

/// The compact length at `i`: seven bits in each of the first two bytes, low bits first, and eight
/// bits in the third; a byte with its high bit set is followed by another one. `None` if the
/// sequence ends before the length does; otherwise the length and the position after it.
pub open spec fn compact(s: Seq<u8>, i: int) -> Option<(int, int)> {
    if s.len() <= i {
        None
    } else if s[i] < 0x80 {
        Some((s[i] as int, i + 1))
    } else if s.len() <= i + 1 {
        None
    } else if s[i + 1] < 0x80 {
        Some((s[i] - 0x80 + s[i + 1] * 0x80, i + 2))
    } else if s.len() <= i + 2 {
        None
    } else {
        Some((s[i] - 0x80 + (s[i + 1] - 0x80) * 0x80 + s[i + 2] * 0x4000, i + 3))
    }
}

/// The message of `n` bytes at the start of `s`, once it is there.
pub open spec fn first_bytes(s: Seq<u8>, n: int) -> Result<Seq<u8>, ErrorView> {
    if s.len() < n {
        Err(ErrorView::Incomplete)
    } else {
        Ok(s.subrange(0, n))
    }
}

/// The bytes of the clipboard message at the start of `s`. A negative length marks the extended
/// form, which has its flags in the first four bytes of the text.
pub open spec fn cut_text(s: Seq<u8>) -> Result<Seq<u8>, ErrorView> {
    if s.len() < 8 {
        Err(ErrorView::Incomplete)
    } else {
        let length = be_i32(s, 4);
        if length > MAX_MESSAGE_LENGTH {
            Err(ErrorView::Other(ParseErrorView::MessageTooLong(length)))
        } else if -length > MAX_MESSAGE_LENGTH {
            Err(ErrorView::Other(ParseErrorView::MessageTooLong(-length)))
        } else if length >= 0 {
            first_bytes(s, 8 + length)
        } else if s.len() < 12 {
            Err(ErrorView::Incomplete)
        } else {
            first_bytes(s, 8 - length)
        }
    }
}

impl<'a> Cursor<'a> {
    /// The number of bytes from the position to the end.
    pub open spec fn left(self) -> int {
        if self.pos <= self.data@.len() {
            self.data@.len() - self.pos
        } else {
            0
        }
    }

    /// The bytes from the position to the end. There are none where the position lies behind it.
    pub open spec fn rest(self) -> Seq<u8> {
        if self.pos <= self.data@.len() {
            self.data@.skip(self.pos as int)
        } else {
            Seq::empty()
        }
    }

    /// Whether `after` is the same buffer, `n` bytes further on.
    pub open spec fn moves_to(self, after: Cursor<'a>, n: int) -> bool {
        after.data == self.data && after.pos == self.pos + n
    }

    /// The next `n` bytes.
    pub open spec fn upcoming(self, n: int) -> Seq<u8> {
        if n == 0 {
            Seq::empty()
        } else {
            self.data@.subrange(self.pos as int, self.pos + n)
        }
    }

    /// A cursor at the start of `data`.
    pub fn new(data: &'a [u8]) -> (cursor: Cursor<'a>)
        ensures
            cursor == (Cursor { data, pos: 0 }),
    {
        Cursor { data, pos: 0 }
    }

    /// The current position.
    pub fn position(&self) -> (pos: usize)
        ensures
            pos == self.pos,
    {
        self.pos
    }

    /// Moves to `pos`, which may lie behind the end.
    pub fn set_position(&mut self, pos: usize)
        ensures
            *final(self) == (Cursor { data: old(self).data, pos }),
    {
        self.pos = pos;
    }

    /// The whole buffer.
    pub fn get_ref(&self) -> (data: &'a [u8])
        ensures
            data == self.data,
    {
        self.data
    }

    /// The number of bytes from the position to the end.
    pub fn remaining(&self) -> (n: usize)
        ensures
            n == self.left(),
            self.data@.len() <= usize::MAX,
    {
        if self.pos <= self.data.len() {
            self.data.len() - self.pos
        } else {
            0
        }
    }
}

/// Rejects messages that are larger than [`MAX_MESSAGE_LENGTH`].
pub fn check_message_length(length: usize) -> (r: Result<(), Error>)
    ensures
        r is Ok <==> length <= MAX_MESSAGE_LENGTH,
        r matches Err(e) ==> e@ == ErrorView::Other(ParseErrorView::MessageTooLong(length as int)),
{
    if length > MAX_MESSAGE_LENGTH {
        return Err(Error::Other(ParseError::MessageTooLong(length)));
    }
    Ok(())
}

/// The byte at the position, which stays where it is.
pub fn peek_u8(src: &Cursor<'_>) -> (r: Result<u8, Error>)
    ensures
        match r {
            Ok(v) => src.left() >= 1 && v == src.data@[src.pos as int],
            Err(e) => src.left() < 1 && e is Incomplete,
        },
{
    if src.remaining() < 1 {
        return Err(Error::Incomplete);
    }
    Ok(src.data[src.pos])
}

/// Reads one byte.
pub fn get_u8(src: &mut Cursor<'_>) -> (r: Result<u8, Error>)
    ensures
        match r {
            Ok(v) => old(src).left() >= 1 && v == old(src).data@[old(src).pos as int]
                && old(src).moves_to(*final(src), 1),
            Err(e) => old(src).left() < 1 && e is Incomplete && *final(src) == *old(src),
        },
{
    if src.remaining() < 1 {
        return Err(Error::Incomplete);
    }
    let v: u8 = src.data[src.pos];
    src.pos = src.pos + 1;
    Ok(v)
}

/// Reads an unsigned 16-bit number.
pub fn get_u16(src: &mut Cursor<'_>) -> (r: Result<u16, Error>)
    ensures
        match r {
            Ok(v) => old(src).left() >= 2 && v == be16(old(src).data@, old(src).pos as int)
                && old(src).moves_to(*final(src), 2),
            Err(e) => old(src).left() < 2 && e is Incomplete && *final(src) == *old(src),
        },
{
    if src.remaining() < 2 {
        return Err(Error::Incomplete);
    }
    let hi: u16 = src.data[src.pos] as u16;
    let lo: u16 = src.data[src.pos + 1] as u16;
    src.pos = src.pos + 2;
    Ok(hi * 0x100 + lo)
}

/// Reads an unsigned 32-bit number.
pub fn get_u32(src: &mut Cursor<'_>) -> (r: Result<u32, Error>)
    ensures
        match r {
            Ok(v) => old(src).left() >= 4 && v == be32(old(src).data@, old(src).pos as int)
                && old(src).moves_to(*final(src), 4),
            Err(e) => old(src).left() < 4 && e is Incomplete && *final(src) == *old(src),
        },
{
    if src.remaining() < 4 {
        return Err(Error::Incomplete);
    }
    let b0: u32 = src.data[src.pos] as u32;
    let b1: u32 = src.data[src.pos + 1] as u32;
    let b2: u32 = src.data[src.pos + 2] as u32;
    let b3: u32 = src.data[src.pos + 3] as u32;
    src.pos = src.pos + 4;
    Ok((b0 * 0x100 + b1) * 0x1_0000 + (b2 * 0x100 + b3))
}

/// Reads a two's complement 32-bit number.
pub fn get_i32(src: &mut Cursor<'_>) -> (r: Result<i32, Error>)
    ensures
        match r {
            Ok(v) => old(src).left() >= 4 && v == be_i32(old(src).data@, old(src).pos as int)
                && old(src).moves_to(*final(src), 4),
            Err(e) => old(src).left() < 4 && e is Incomplete && *final(src) == *old(src),
        },
{
    let v: u32 = get_u32(src)?;
    if v < 0x8000_0000 {
        Ok(v as i32)
    } else {
        Ok((v as i64 - 0x1_0000_0000) as i32)
    }
}

/// Reads a compact length, as the Tight encoding writes it.
pub fn get_compact(src: &mut Cursor<'_>) -> (r: Result<usize, Error>)
    ensures
        match r {
            Ok(v) => compact(old(src).data@, old(src).pos as int) == Some(
                (v as int, final(src).pos as int),
            ) && final(src).data == old(src).data,
            Err(e) => compact(old(src).data@, old(src).pos as int) is None && e is Incomplete
                && old(src).moves_to(*final(src), old(src).left()),
        },
        r matches Ok(v) ==> v < 0x40_0000,
{
    let mut l: usize = get_u8(src)? as usize;
    let mut len: usize = l & 0x7f;
    assert(l & 0x7f == l % 0x80 && (l & 0x80 != 0 <==> l >= 0x80)) by (bit_vector)
        requires
            l < 0x100,
    ;
    if (l & 0x80) != 0 {
        l = get_u8(src)? as usize;
        assert(len | ((l & 0x7f) << 7) == len + (l % 0x80) * 0x80 && (l & 0x80 != 0 <==> l >= 0x80))
            by (bit_vector)
            requires
                len < 0x80,
                l < 0x100,
        ;
        len = len | ((l & 0x7f) << 7);
        if (l & 0x80) != 0 {
            l = get_u8(src)? as usize;
            assert(len | (l << 14) == len + l * 0x4000) by (bit_vector)
                requires
                    len < 0x4000,
                    l < 0x100,
            ;
            len = len | (l << 14);
        }
    }
    Ok(len)
}

/// Moves `n` bytes on.
pub fn skip(src: &mut Cursor<'_>, n: usize) -> (r: Result<(), Error>)
    ensures
        match r {
            Ok(()) => old(src).left() >= n && old(src).moves_to(*final(src), n as int),
            Err(e) => old(src).left() < n && e is Incomplete && *final(src) == *old(src),
        },
{
    if src.remaining() < n {
        return Err(Error::Incomplete);
    }
    src.pos = src.pos + n;
    Ok(())
}

/// Reads the next `n` bytes.
pub fn read<'a>(src: &mut Cursor<'a>, n: usize) -> (r: Result<&'a [u8], Error>)
    ensures
        match r {
            Ok(bytes) => old(src).left() >= n && bytes@ == old(src).upcoming(n as int)
                && old(src).moves_to(*final(src), n as int),
            Err(e) => old(src).left() < n && e is Incomplete && *final(src) == *old(src),
        },
{
    if src.remaining() < n {
        return Err(Error::Incomplete);
    }
    if n == 0 {
        return Ok(slice_subrange(src.data, 0, 0));
    }
    let start: usize = src.pos;
    src.pos = src.pos + n;
    Ok(slice_subrange(src.data, start, start + n))
}

/// Reads the `n` bytes at the start of the buffer.
pub fn read_first(src: &mut Cursor<'_>, n: usize) -> (r: Result<Vec<u8>, Error>)
    requires
        old(src).pos == 0,
    ensures
        first_bytes(old(src).data@, n as int) == (match r {
            Ok(payload) => Ok::<Seq<u8>, ErrorView>(payload@),
            Err(e) => Err(e@),
        }),
{
    let bytes = read(src, n)?;
    assert(bytes@ == src.data@.subrange(0, n as int));
    Ok(slice_to_vec(bytes))
}

/// Reads the clipboard message at the start of the buffer.
pub fn read_cut_text(src: &mut Cursor<'_>) -> (r: Result<Vec<u8>, Error>)
    requires
        old(src).pos == 0,
    ensures
        cut_text(old(src).data@) == (match r {
            Ok(payload) => Ok::<Seq<u8>, ErrorView>(payload@),
            Err(e) => Err(e@),
        }),
{
    skip(src, 4)?; // id + padding
    let length: i32 = get_i32(src)?;
    if length >= 0 {
        // Standard message
        check_message_length(length as usize)?;
        let len: usize = src.position();
        src.set_position(0);
        return read_first(src, len + length as usize);
    }
    // Extended message
    let text_length: usize = (-(length as i64)) as usize;
    check_message_length(text_length)?;
    let _flags: u32 = get_u32(src)?;
    src.set_position(0);
    read_first(src, 8 + text_length)
}

/// The next `n` bytes. The position stays where it is.
pub fn peek(src: &Cursor<'_>, n: usize) -> (r: Result<Vec<u8>, Error>)
    ensures
        match r {
            Ok(bytes) => src.left() >= n && bytes@ == src.upcoming(n as int),
            Err(e) => src.left() < n && e is Incomplete,
        },
{
    if src.remaining() < n {
        return Err(Error::Incomplete);
    }
    if n == 0 {
        return Ok(Vec::new());
    }
    Ok(slice_to_vec(slice_subrange(src.data, src.pos, src.pos + n)))
}

} // verus!
