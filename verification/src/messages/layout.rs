//! What messages look like, byte by byte, and that the parsers find in a stream exactly the
//! messages that were put into it.

use vstd::prelude::*;

use super::client;
use super::client::{client_message, encodings};
use super::io::{be16, be32, be_i32, compact};
use super::server;
use super::server::{rectangle, rectangles, server_message, RectangleEnd};
use super::stream::law_client_message_is_incomplete_before_its_end;
use super::stream::law_server_message_is_incomplete_before_its_end;
use super::{ErrorView, ParseErrorView};

verus! {

/// A number in one byte.
pub open spec fn one(n: int) -> Seq<u8> {
    seq![n as u8]
}

/// A number in two bytes, the higher one first.
pub open spec fn two(n: int) -> Seq<u8> {
    seq![(n / 256) as u8, (n % 256) as u8]
}

/// A number in four bytes, the highest one first.
pub open spec fn four(n: int) -> Seq<u8> {
    seq![
        (n / 16777216) as u8,
        ((n / 65536) % 256) as u8,
        ((n / 256) % 256) as u8,
        (n % 256) as u8,
    ]
}

/// A number that may be negative in four bytes, as its two's complement.
pub open spec fn signed_four(n: int) -> Seq<u8> {
    if n < 0 {
        four(n + 4294967296)
    } else {
        four(n)
    }
}

/// A length as the Tight encoding writes it: in one byte, in two or in three, as short as it can
/// be.
pub open spec fn compact_length(n: int) -> Seq<u8> {
    if n <= 127 {
        seq![n as u8]
    } else if n <= 16383 {
        seq![(128 + n % 128) as u8, (n / 128) as u8]
    } else {
        seq![(128 + n % 128) as u8, (128 + (n / 128) % 128) as u8, (n / 16384) as u8]
    }
}

proof fn lemma_number_reads(s: Seq<u8>, i: int, n: int)
    requires
        0 <= i,
    ensures
        0 <= n <= 65535 && i + 2 <= s.len() && s[i] == two(n)[0] && s[i + 1] == two(n)[1] ==> be16(
            s,
            i,
        ) == n,
        0 <= n <= 4294967295 && i + 4 <= s.len() && s[i] == four(n)[0] && s[i + 1] == four(n)[1]
            && s[i + 2] == four(n)[2] && s[i + 3] == four(n)[3] ==> be32(s, i) == n,
        -2147483648 <= n <= 2147483647 && i + 4 <= s.len() && s[i] == signed_four(n)[0] && s[i + 1]
            == signed_four(n)[1] && s[i + 2] == signed_four(n)[2] && s[i + 3] == signed_four(n)[3]
            ==> be_i32(s, i) == n,
{
    if 0 <= n <= 4294967295 {
        assert(n == (n / 16777216) * 16777216 + ((n / 65536) % 256) * 65536 + ((n / 256) % 256)
            * 256 + n % 256);
    }
    if -2147483648 <= n < 0 {
        let m = n + 4294967296;
        assert(m == (m / 16777216) * 16777216 + ((m / 65536) % 256) * 65536 + ((m / 256) % 256)
            * 256 + m % 256);
    }
}

/// A number of one, two or four bytes is read as what it is, wherever it stands; and so is a length
/// as the Tight encoding writes it, which ends where its bytes do.
pub proof fn law_numbers_are_read_back(before: Seq<u8>, n: int, after: Seq<u8>)
    ensures
        0 <= n <= 65535 ==> be16(before + two(n) + after, before.len() as int) == n,
        0 <= n <= 4294967295 ==> be32(before + four(n) + after, before.len() as int) == n,
        -2147483648 <= n <= 2147483647 ==> be_i32(
            before + signed_four(n) + after,
            before.len() as int,
        ) == n,
        0 <= n <= 4194303 ==> compact(before + compact_length(n) + after, before.len() as int)
            == Some((n, (before + compact_length(n)).len() as int)),
{
    let i = before.len() as int;
    lemma_number_reads(before + two(n) + after, i, n);
    lemma_number_reads(before + four(n) + after, i, n);
    lemma_number_reads(before + signed_four(n) + after, i, n);
    if 0 <= n <= 4194303 {
        let s = before + compact_length(n) + after;
        lemma_compact_reads(s, i, n);
    }
}

proof fn lemma_compact_reads(s: Seq<u8>, i: int, n: int)
    requires
        0 <= i,
        0 <= n <= 4194303,
        i + compact_length(n).len() <= s.len(),
        forall|k: int|
            0 <= k < compact_length(n).len() ==> #[trigger] s[i + k] == compact_length(n)[k],
    ensures
        compact(s, i) == Some((n, i + compact_length(n).len() as int)),
{
    assert(s[i + 0] == compact_length(n)[0]);
    if n > 127 {
        assert(s[i + 1] == compact_length(n)[1]);
        if n > 16383 {
            assert(s[i + 2] == compact_length(n)[2]);
        }
    }
}

/// A length of the Tight encoding is what its bytes stand for even where it could be shorter: seven
/// bits in each of the first two bytes, low ones first, and eight bits in the third one. There is
/// none where a byte with its high bit set is the last one that there is.
pub proof fn law_lengths_need_not_be_short(before: Seq<u8>, a: u8, b: u8, c: u8, after: Seq<u8>)
    ensures
        ({
            let i = before.len() as int;
            &&& compact(before, i) is None
            &&& a < 128 ==> compact(before + seq![a] + after, i) == Some((a as int, i + 1))
            &&& a >= 128 ==> compact(before + seq![a], i) is None
            &&& a >= 128 && b < 128 ==> compact(before + seq![a, b] + after, i) == Some(
                (a % 128 + 128 * b, i + 2),
            )
            &&& a >= 128 && b >= 128 ==> compact(before + seq![a, b], i) is None && compact(
                before + seq![a, b, c] + after,
                i,
            ) == Some((a % 128 + 128 * (b % 128) + 16384 * c, i + 3))
        }),
{
}

/// What is in a rectangle of a framebuffer update. The control bytes of the Tight encoding are
/// given as they are.
pub enum Content {
    Raw { pixels: Seq<u8> },
    CopyRect { x: u16, y: u16 },
    TightFill { control: u8, color: Seq<u8> },
    TightJpeg { control: u8, data: Seq<u8> },
    /// Without a filter.
    TightBasic { control: u8, data: Seq<u8> },
    /// With the filter that copies.
    TightCopy { control: u8, data: Seq<u8> },
    /// With the filter that looks colors up.
    TightPalette { control: u8, palette: Seq<u8>, data: Seq<u8> },
    Zrle { data: Seq<u8> },
    LastRect,
    Cursor { pixels: Seq<u8>, mask: Seq<u8> },
    QemuExtendedKeyEvent,
    ExtendedDesktopSize { unused: Seq<u8>, screens: Seq<u8> },
    VmwareColorCursor { padding: u8, and_mask: Seq<u8>, xor_mask: Seq<u8> },
    VmwareAlphaCursor { padding: u8, pixels: Seq<u8> },
}

/// A rectangle of a framebuffer update.
pub struct Rectangle {
    pub x: u16,
    pub y: u16,
    pub width: u16,
    pub height: u16,
    pub content: Content,
}

/// Data of the Tight encoding, of `size` bytes before it was compressed. Less than 12 bytes are
/// never compressed, and have no length in front.
pub open spec fn tight_data(size: int, data: Seq<u8>) -> Seq<u8> {
    if size < 12 {
        data
    } else {
        compact_length(data.len() as int) + data
    }
}

/// Whether data is what is left of `size` bytes in the Tight encoding.
pub open spec fn is_tight_data(size: int, data: Seq<u8>) -> bool {
    if size < 12 {
        data.len() == size
    } else {
        data.len() <= 4194303
    }
}

/// The number of bytes in a row of bits.
pub open spec fn bit_row(width: int) -> int {
    (width + 7) / 8
}

impl Rectangle {
    /// The number of the encoding.
    pub open spec fn encoding(self) -> int {
        match self.content {
            Content::Raw { .. } => 0,
            Content::CopyRect { .. } => 1,
            Content::TightFill { .. } => 7,
            Content::TightJpeg { .. } => 7,
            Content::TightBasic { .. } => 7,
            Content::TightCopy { .. } => 7,
            Content::TightPalette { .. } => 7,
            Content::Zrle { .. } => 16,
            Content::LastRect => -224,
            Content::Cursor { .. } => -239,
            Content::QemuExtendedKeyEvent => -258,
            Content::ExtendedDesktopSize { .. } => -308,
            Content::VmwareColorCursor { .. } => 0x574d5664,
            Content::VmwareAlphaCursor { .. } => 0x574d5664,
        }
    }

    /// The size of the data behind a palette, before it was compressed: a bit for each pixel if
    /// there are two colors or one, and a byte if there are more. Rows start at whole bytes.
    pub open spec fn palette_size(self, palette: Seq<u8>) -> int {
        if palette.len() <= 6 {
            bit_row(self.width as int) * self.height
        } else {
            self.width * self.height
        }
    }

    /// Whether the content is what a rectangle of this size holds, where a pixel takes
    /// `bytes_per_pixel` bytes.
    pub open spec fn valid(self, bytes_per_pixel: int) -> bool {
        match self.content {
            Content::Raw { pixels } => pixels.len() == self.width * self.height * bytes_per_pixel,
            Content::CopyRect { .. } => true,
            Content::TightFill { control, color } => control / 16 == 8 && color.len() == 3,
            Content::TightJpeg { control, data } => control / 16 == 9 && data.len() <= 4194303,
            Content::TightBasic { control, data } => control / 16 != 8 && control / 16 != 9 && (
            control / 64) % 2 == 0 && is_tight_data(self.width * self.height * 3, data),
            Content::TightCopy { control, data } => (control / 64) % 2 == 1 && is_tight_data(
                self.width * self.height * 3,
                data,
            ),
            Content::TightPalette { control, palette, data } => (control / 64) % 2 == 1 && 3
                <= palette.len() <= 768 && palette.len() % 3 == 0 && is_tight_data(
                self.palette_size(palette),
                data,
            ),
            Content::Zrle { data } => data.len() <= 4194304,
            Content::LastRect => true,
            Content::Cursor { pixels, mask } => pixels.len() == self.width * self.height
                * bytes_per_pixel && mask.len() == bit_row(self.width as int) * self.height,
            Content::QemuExtendedKeyEvent => true,
            Content::ExtendedDesktopSize { unused, screens } => unused.len() == 3
                && screens.len() % 16 == 0 && screens.len() <= 16 * 255,
            Content::VmwareColorCursor { and_mask, xor_mask, .. } => and_mask.len() == self.width
                * self.height * bytes_per_pixel && xor_mask.len() == self.width * self.height
                * bytes_per_pixel,
            Content::VmwareAlphaCursor { pixels, .. } => pixels.len() == self.width * self.height
                * 4,
        }
    }

    /// The bytes of the content.
    pub open spec fn body(self) -> Seq<u8> {
        match self.content {
            Content::Raw { pixels } => pixels,
            Content::CopyRect { x, y } => two(x as int) + two(y as int),
            Content::TightFill { control, color } => seq![control] + color,
            Content::TightJpeg { control, data } => seq![control] + compact_length(
                data.len() as int,
            ) + data,
            Content::TightBasic { control, data } => seq![control] + tight_data(
                self.width * self.height * 3,
                data,
            ),
            Content::TightCopy { control, data } => seq![control, 0u8] + tight_data(
                self.width * self.height * 3,
                data,
            ),
            Content::TightPalette { control, palette, data } => seq![control, 1u8] + one(
                palette.len() / 3 - 1,
            ) + palette + tight_data(self.palette_size(palette), data),
            Content::Zrle { data } => four(data.len() as int) + data,
            Content::LastRect => Seq::empty(),
            Content::Cursor { pixels, mask } => pixels + mask,
            Content::QemuExtendedKeyEvent => Seq::empty(),
            Content::ExtendedDesktopSize { unused, screens } => one(screens.len() as int / 16)
                + unused + screens,
            Content::VmwareColorCursor { padding, and_mask, xor_mask } => seq![0u8, padding]
                + and_mask + xor_mask,
            Content::VmwareAlphaCursor { padding, pixels } => seq![1u8, padding] + pixels,
        }
    }

    /// The bytes of the rectangle: position, size, encoding and content.
    pub open spec fn bytes(self) -> Seq<u8> {
        rectangle_header(self.x, self.y, self.width, self.height, self.encoding()) + self.body()
    }
}

/// The start of a rectangle: its position, its size and its encoding.
pub open spec fn rectangle_header(x: u16, y: u16, width: u16, height: u16, encoding: int) -> Seq<
    u8,
> {
    two(x as int) + two(y as int) + two(width as int) + two(height as int) + signed_four(encoding)
}

/// The bytes of rectangles, one after the other.
pub open spec fn rectangle_bytes(list: Seq<Rectangle>) -> Seq<u8>
    decreases list.len(),
{
    if list.len() == 0 {
        Seq::empty()
    } else {
        list[0].bytes() + rectangle_bytes(list.drop_first())
    }
}

/// A framebuffer update that announces `count` rectangles.
pub open spec fn update_bytes(padding: u8, count: int, list: Seq<Rectangle>) -> Seq<u8> {
    seq![0u8, padding] + two(count) + rectangle_bytes(list)
}

proof fn lemma_header_reads(s: Seq<u8>, p: int, x: u16, y: u16, w: u16, h: u16, encoding: int)
    requires
        0 <= p,
        p + 12 <= s.len(),
        s.subrange(p, p + 12) == rectangle_header(x, y, w, h, encoding),
        -2147483648 <= encoding <= 2147483647,
    ensures
        be16(s, p + 4) == w,
        be16(s, p + 6) == h,
        be_i32(s, p + 8) == encoding,
{
    let header = rectangle_header(x, y, w, h, encoding);
    assert(forall|k: int| 0 <= k < 12 ==> #[trigger] s[p + k] == s.subrange(p, p + 12)[k]);
    assert(s[p + 4] == header[4] && s[p + 5] == header[5] && s[p + 6] == header[6] && s[p + 7]
        == header[7]);
    assert(s[p + 8] == header[8] && s[p + 9] == header[9] && s[p + 10] == header[10] && s[p + 11]
        == header[11]);
    lemma_number_reads(s, p + 4, w as int);
    lemma_number_reads(s, p + 6, h as int);
    lemma_number_reads(s, p + 8, encoding);
}

proof fn lemma_tight_data_reads(s: Seq<u8>, p: int, size: int, data: Seq<u8>)
    requires
        0 <= p,
        is_tight_data(size, data),
        p + tight_data(size, data).len() <= s.len(),
        forall|k: int|
            0 <= k < tight_data(size, data).len() ==> #[trigger] s[p + k] == tight_data(
                size,
                data,
            )[k],
    ensures
        server::tight_pixels(s, p, size) == RectangleEnd::Next(p + tight_data(size, data).len()),
{
    if size >= 12 {
        let n = data.len() as int;
        let all = tight_data(size, data);
        assert forall|k: int| 0 <= k < compact_length(n).len() implies #[trigger] s[p + k]
            == compact_length(n)[k] by {
            assert(s[p + k] == all[k]);
        }
        lemma_compact_reads(s, p, n);
    }
}

#[verifier::spinoff_prover]
#[verifier::rlimit(60)]
proof fn lemma_rectangle_reads(s: Seq<u8>, p: int, r: Rectangle, bytes_per_pixel: int)
    requires
        0 <= p,
        0 <= bytes_per_pixel,
        r.valid(bytes_per_pixel),
        p + r.bytes().len() <= s.len(),
        s.subrange(p, p + r.bytes().len()) == r.bytes(),
    ensures
        rectangle(s, p, bytes_per_pixel) == (if r.content is LastRect {
            RectangleEnd::Last(p + r.bytes().len())
        } else {
            RectangleEnd::Next(p + r.bytes().len())
        }),
{
    let all = r.bytes();
    let body = r.body();
    let q = p + 12;
    let header = rectangle_header(r.x, r.y, r.width, r.height, r.encoding());
    assert(header.len() == 12);
    assert(forall|k: int| 0 <= k < all.len() ==> #[trigger] s[p + k] == s.subrange(
        p,
        p + all.len(),
    )[k]);
    assert(s.subrange(p, q) =~= header) by {
        assert forall|k: int| 0 <= k < 12 implies s.subrange(p, q)[k] == header[k] by {
            assert(s[p + k] == all[k]);
        }
    }
    lemma_header_reads(s, p, r.x, r.y, r.width, r.height, r.encoding());
    assert forall|k: int| 0 <= k < body.len() implies #[trigger] s[q + k] == body[k] by {
        assert(s[p + (12 + k)] == all[12 + k]);
    }
    match r.content {
        Content::TightFill { control, color } => {
            assert(s[q + 0] == body[0]);
        },
        Content::TightJpeg { control, data } => {
            assert(s[q + 0] == body[0]);
            let n = data.len() as int;
            assert forall|k: int| 0 <= k < compact_length(n).len() implies #[trigger] s[q + 1 + k]
                == compact_length(n)[k] by {
                assert(s[q + (1 + k)] == body[1 + k]);
            }
            lemma_compact_reads(s, q + 1, n);
        },
        Content::TightBasic { control, data } => {
            assert(s[q + 0] == body[0]);
            let size = r.width * r.height * 3;
            let d = tight_data(size, data);
            assert forall|k: int| 0 <= k < d.len() implies #[trigger] s[q + 1 + k] == d[k] by {
                assert(s[q + (1 + k)] == body[1 + k]);
            }
            lemma_tight_data_reads(s, q + 1, size, data);
        },
        Content::TightCopy { control, data } => {
            assert(s[q + 0] == body[0]);
            assert(s[q + 1] == body[1]);
            let size = r.width * r.height * 3;
            let d = tight_data(size, data);
            assert forall|k: int| 0 <= k < d.len() implies #[trigger] s[q + 2 + k] == d[k] by {
                assert(s[q + (2 + k)] == body[2 + k]);
            }
            lemma_tight_data_reads(s, q + 2, size, data);
        },
        Content::TightPalette { control, palette, data } => {
            assert(s[q + 0] == body[0]);
            assert(s[q + 1] == body[1]);
            assert(s[q + 2] == body[2]);
            let size = r.palette_size(palette);
            let d = tight_data(size, data);
            let start = 3 + palette.len() as int;
            assert forall|k: int| 0 <= k < d.len() implies #[trigger] s[q + start + k] == d[k] by {
                assert(s[q + (start + k)] == body[start + k]);
            }
            assert(s[q + 2] + 1 == palette.len() / 3);
            assert(3 * (s[q + 2] + 1) == palette.len());
            lemma_tight_data_reads(s, q + start, size, data);
        },
        Content::Zrle { data } => {
            assert(s[q + 0] == body[0]);
            assert(s[q + 1] == body[1]);
            assert(s[q + 2] == body[2]);
            assert(s[q + 3] == body[3]);
            lemma_number_reads(s, q, data.len() as int);
        },
        Content::ExtendedDesktopSize { unused, screens } => {
            assert(s[q + 0] == body[0]);
        },
        Content::VmwareColorCursor { padding, and_mask, xor_mask } => {
            assert(s[q + 0] == body[0]);
        },
        Content::VmwareAlphaCursor { padding, pixels } => {
            assert(s[q + 0] == body[0]);
        },
        _ => {},
    }
}

proof fn lemma_subrange_of_joined(s: Seq<u8>, p: int, a: Seq<u8>, b: Seq<u8>)
    requires
        0 <= p,
        p + (a + b).len() <= s.len(),
        s.subrange(p, p + (a + b).len()) == a + b,
    ensures
        s.subrange(p, p + a.len()) == a,
        s.subrange(p + a.len(), p + a.len() + b.len()) == b,
{
    let all = s.subrange(p, p + (a + b).len());
    assert(all.subrange(0, a.len() as int) =~= a);
    assert(all.subrange(a.len() as int, all.len() as int) =~= b);
    assert(s.subrange(p, p + a.len()) =~= all.subrange(0, a.len() as int));
    assert(s.subrange(p + a.len(), p + a.len() + b.len()) =~= all.subrange(
        a.len() as int,
        all.len() as int,
    ));
}

#[verifier::spinoff_prover]
#[verifier::rlimit(60)]
proof fn lemma_rectangles_read(
    s: Seq<u8>,
    p: int,
    count: nat,
    list: Seq<Rectangle>,
    bytes_per_pixel: int,
)
    requires
        0 <= p,
        0 <= bytes_per_pixel,
        forall|i: int| 0 <= i < list.len() ==> (#[trigger] list[i]).valid(bytes_per_pixel),
        forall|i: int|
            0 <= i < list.len() ==> (#[trigger] list[i].content is LastRect ==> i == list.len()
                - 1),
        count == list.len() || (list.len() > 0 && list.last().content is LastRect && count
            >= list.len()),
        p + rectangle_bytes(list).len() <= s.len(),
        s.subrange(p, p + rectangle_bytes(list).len()) == rectangle_bytes(list),
    ensures
        rectangles(s, p, count, bytes_per_pixel) == Ok::<int, ErrorView>(
            p + rectangle_bytes(list).len(),
        ),
    decreases list.len(),
{
    if list.len() > 0 {
        let r = list[0];
        let n = r.bytes().len() as int;
        let others = list.drop_first();
        lemma_subrange_of_joined(s, p, r.bytes(), rectangle_bytes(others));
        lemma_rectangle_reads(s, p, r, bytes_per_pixel);
        if r.content is LastRect {
            assert(list.len() == 1);
            assert(rectangle_bytes(others) =~= Seq::<u8>::empty());
        } else {
            assert forall|i: int| 0 <= i < others.len() implies (#[trigger] others[i]).valid(
                bytes_per_pixel,
            ) && (others[i].content is LastRect ==> i == others.len() - 1) by {
                assert(others[i] == list[i + 1]);
            }
            if others.len() > 0 {
                assert(others.last() == list.last());
            }
            lemma_rectangles_read(s, p + n, (count - 1) as nat, others, bytes_per_pixel);
        }
    }
}

/// A framebuffer update with any rectangles, in any of the encodings, is one message: it is taken
/// off the stream whole, once its last byte is there and not before, and whatever follows it. Where
/// the rectangles end with a LastRect, there may be fewer of them than the update announces.
#[verifier::spinoff_prover]
#[verifier::rlimit(60)]
pub proof fn law_updates_are_read_back(
    padding: u8,
    count: int,
    list: Seq<Rectangle>,
    rest: Seq<u8>,
    bytes_per_pixel: int,
)
    requires
        0 <= bytes_per_pixel,
        0 <= count <= 65535,
        forall|i: int| 0 <= i < list.len() ==> (#[trigger] list[i]).valid(bytes_per_pixel),
        forall|i: int|
            0 <= i < list.len() ==> (#[trigger] list[i].content is LastRect ==> i == list.len()
                - 1),
        count == list.len() || (list.len() > 0 && list.last().content is LastRect && count
            >= list.len()),
    ensures
        ({
            let update = update_bytes(padding, count, list);
            let message = server::MessageView::FramebufferUpdate(update);
            &&& server_message(update + rest, bytes_per_pixel) == Ok::<_, ErrorView>(message)
            &&& message.payload() == update
            &&& forall|n: int|
                0 <= n < update.len() ==> server_message(
                    #[trigger] update.take(n),
                    bytes_per_pixel,
                ) == Err::<server::MessageView, _>(ErrorView::Incomplete)
        }),
{
    let update = update_bytes(padding, count, list);
    let s = update + rest;
    let body = rectangle_bytes(list);
    assert(s[2] == two(count)[0] && s[3] == two(count)[1]);
    lemma_number_reads(s, 2, count);
    assert(s.subrange(4, 4 + body.len() as int) =~= body);
    lemma_rectangles_read(s, 4, count as nat, list, bytes_per_pixel);
    assert(s.subrange(0, update.len() as int) =~= update);
    assert forall|n: int| 0 <= n < update.len() implies server_message(
        #[trigger] update.take(n),
        bytes_per_pixel,
    ) == Err::<server::MessageView, _>(ErrorView::Incomplete) by {
        law_server_message_is_incomplete_before_its_end(s, n, bytes_per_pixel);
        assert(s.subrange(0, n) =~= update.take(n));
    }
}

/// A framebuffer update with one rectangle of plain pixels is a whole message exactly when its
/// header and all of its pixels are there, and is that long.
#[verifier::spinoff_prover]
#[verifier::rlimit(60)]
pub proof fn law_raw_rectangle_length(
    x: u16,
    y: u16,
    width: u16,
    height: u16,
    tail: Seq<u8>,
    bytes_per_pixel: int,
)
    requires
        0 <= bytes_per_pixel,
    ensures
        ({
            let s = seq![0u8, 0u8, 0u8, 1u8] + rectangle_header(x, y, width, height, 0) + tail;
            let n = 16 + width * height * bytes_per_pixel;
            server_message(s, bytes_per_pixel) == (if s.len() >= n {
                Ok(server::MessageView::FramebufferUpdate(s.take(n)))
            } else {
                Err(ErrorView::Incomplete)
            })
        }),
{
    let header = rectangle_header(x, y, width, height, 0);
    let s = seq![0u8, 0u8, 0u8, 1u8] + header + tail;
    let size = width * height * bytes_per_pixel;
    assert(0 <= size) by (nonlinear_arith)
        requires
            0 <= width,
            0 <= height,
            0 <= bytes_per_pixel,
            size == width * height * bytes_per_pixel,
    ;
    assert(s.subrange(4, 16) =~= header);
    lemma_header_reads(s, 4, x, y, width, height, 0);
    reveal_with_fuel(rectangles, 2);
    if s.len() >= 16 + size {
        assert(s.subrange(0, 16 + size) =~= s.take(16 + size));
    }
}

/// What makes a rectangle one that can never be read: its encoding, or what its content starts
/// with.
#[verifier::opaque]
pub open spec fn unreadable(encoding: int, start: Seq<u8>) -> Option<ParseErrorView> {
    if encoding == 7 && start.len() == 2 && start[0] / 16 != 8 && start[0] / 16 != 9 && (start[0]
        / 64) % 2 == 1 && start[1] >= 2 {
        Some(ParseErrorView::TightFilter(start[1]))
    } else if encoding == 0x574d5664 && start.len() == 1 && start[0] >= 2 {
        Some(ParseErrorView::CursorType(start[0]))
    } else if encoding == 16 && start.len() == 4 && start[0] * 16777216 + start[1] * 65536
        + start[2] * 256 + start[3] > 4194304 {
        Some(
            ParseErrorView::MessageTooLong(
                start[0] * 16777216 + start[1] * 65536 + start[2] * 256 + start[3],
            ),
        )
    } else if start.len() == 0 && encoding != 0 && encoding != 1 && encoding != 7 && encoding != 16
        && encoding != -224 && encoding != -239 && encoding != -258 && encoding != -308 && encoding
        != 0x574d5664 {
        Some(ParseErrorView::Encoding(encoding as i32))
    } else {
        None
    }
}

/// An update that goes on with a rectangle that can never be read is refused for that reason,
/// whatever rectangles come before it and whatever follows.
#[verifier::spinoff_prover]
#[verifier::rlimit(60)]
pub proof fn law_unreadable_rectangles_are_refused(
    padding: u8,
    count: int,
    list: Seq<Rectangle>,
    header: (u16, u16, u16, u16),
    encoding: int,
    start: Seq<u8>,
    rest: Seq<u8>,
    bytes_per_pixel: int,
)
    requires
        0 <= bytes_per_pixel,
        list.len() < count <= 65535,
        forall|i: int|
            0 <= i < list.len() ==> (#[trigger] list[i]).valid(bytes_per_pixel) && !(
            list[i].content is LastRect),
        -2147483648 <= encoding <= 2147483647,
        unreadable(encoding, start) is Some,
        rest.len() >= 12 + start.len(),
        rest.take(12 + start.len() as int) == rectangle_header(
            header.0,
            header.1,
            header.2,
            header.3,
            encoding,
        ) + start,
    ensures
        server_message(update_bytes(padding, count, list) + rest, bytes_per_pixel) == Err::<
            server::MessageView,
            _,
        >(ErrorView::Other(unreadable(encoding, start)->0)),
{
    let update = update_bytes(padding, count, list);
    lemma_behind(update, rest, 12 + start.len() as int);
    lemma_unreadable_rectangle(
        update + rest,
        update.len() as int,
        header,
        encoding,
        start,
        bytes_per_pixel,
    );
    lemma_update_fails(
        padding,
        count,
        list,
        rest,
        bytes_per_pixel,
        ErrorView::Other(unreadable(encoding, start)->0),
    );
}

proof fn lemma_behind(a: Seq<u8>, b: Seq<u8>, n: int)
    requires
        0 <= n <= b.len(),
    ensures
        (a + b).subrange(a.len() as int, a.len() + n) == b.take(n),
{
    assert((a + b).subrange(a.len() as int, a.len() + n) =~= b.take(n));
}

#[verifier::spinoff_prover]
#[verifier::rlimit(60)]
proof fn lemma_update_fails(
    padding: u8,
    count: int,
    list: Seq<Rectangle>,
    rest: Seq<u8>,
    bytes_per_pixel: int,
    e: ErrorView,
)
    requires
        0 <= bytes_per_pixel,
        list.len() < count <= 65535,
        forall|i: int|
            0 <= i < list.len() ==> (#[trigger] list[i]).valid(bytes_per_pixel) && !(
            list[i].content is LastRect),
        rectangle(
            update_bytes(padding, count, list) + rest,
            update_bytes(padding, count, list).len() as int,
            bytes_per_pixel,
        ) == RectangleEnd::Unknown(e),
    ensures
        server_message(update_bytes(padding, count, list) + rest, bytes_per_pixel) == Err::<
            server::MessageView,
            _,
        >(e),
{
    let update = update_bytes(padding, count, list);
    let s = update + rest;
    let body = rectangle_bytes(list);
    assert(s[2] == two(count)[0] && s[3] == two(count)[1]);
    lemma_number_reads(s, 2, count);
    assert(s.subrange(4, 4 + body.len() as int) =~= body);
    lemma_rectangles_pass(s, 4, count as nat, list, bytes_per_pixel);
    lemma_first_rectangle_fails(
        s,
        update.len() as int,
        (count - list.len()) as nat,
        bytes_per_pixel,
        e,
    );
}

proof fn lemma_first_rectangle_fails(
    s: Seq<u8>,
    p: int,
    n: nat,
    bytes_per_pixel: int,
    e: ErrorView,
)
    requires
        n > 0,
        rectangle(s, p, bytes_per_pixel) == RectangleEnd::Unknown(e),
    ensures
        rectangles(s, p, n, bytes_per_pixel) == Err::<int, _>(e),
{
}

#[verifier::spinoff_prover]
#[verifier::rlimit(60)]
proof fn lemma_unreadable_rectangle(
    s: Seq<u8>,
    p: int,
    header: (u16, u16, u16, u16),
    encoding: int,
    start: Seq<u8>,
    bytes_per_pixel: int,
)
    requires
        0 <= p,
        p + 12 + start.len() <= s.len(),
        s.subrange(p, p + 12 + start.len()) == rectangle_header(
            header.0,
            header.1,
            header.2,
            header.3,
            encoding,
        ) + start,
        -2147483648 <= encoding <= 2147483647,
        unreadable(encoding, start) is Some,
    ensures
        rectangle(s, p, bytes_per_pixel) == RectangleEnd::Unknown(
            ErrorView::Other(unreadable(encoding, start)->0),
        ),
{
    let head = rectangle_header(header.0, header.1, header.2, header.3, encoding);
    lemma_subrange_of_joined(s, p, head, start);
    lemma_header_reads(s, p, header.0, header.1, header.2, header.3, encoding);
    reveal(unreadable);
    let from = s.subrange(p + 12, p + 12 + start.len());
    assert(from == start);
    assert(start.len() > 0 ==> s[p + 12] == from[0]);
    assert(start.len() > 1 ==> s[p + 13] == from[1]);
    assert(start.len() > 3 ==> s[p + 14] == from[2] && s[p + 15] == from[3]);
}

#[verifier::spinoff_prover]
#[verifier::rlimit(60)]
proof fn lemma_rectangles_pass(
    s: Seq<u8>,
    p: int,
    count: nat,
    list: Seq<Rectangle>,
    bytes_per_pixel: int,
)
    requires
        0 <= p,
        0 <= bytes_per_pixel,
        list.len() <= count,
        forall|i: int|
            0 <= i < list.len() ==> (#[trigger] list[i]).valid(bytes_per_pixel) && !(
            list[i].content is LastRect),
        p + rectangle_bytes(list).len() <= s.len(),
        s.subrange(p, p + rectangle_bytes(list).len()) == rectangle_bytes(list),
    ensures
        rectangles(s, p, count, bytes_per_pixel) == rectangles(
            s,
            p + rectangle_bytes(list).len(),
            (count - list.len()) as nat,
            bytes_per_pixel,
        ),
    decreases list.len(),
{
    if list.len() > 0 {
        let r = list[0];
        let n = r.bytes().len() as int;
        let others = list.drop_first();
        lemma_subrange_of_joined(s, p, r.bytes(), rectangle_bytes(others));
        lemma_rectangle_reads(s, p, r, bytes_per_pixel);
        assert forall|i: int| 0 <= i < others.len() implies (#[trigger] others[i]).valid(
            bytes_per_pixel,
        ) && !(others[i].content is LastRect) by {
            assert(others[i] == list[i + 1]);
        }
        lemma_rectangles_pass(s, p + n, (count - 1) as nat, others, bytes_per_pixel);
    }
}

/// The other messages of a server.
pub enum ServerMessage {
    /// The first color, and the colors, of six bytes each.
    SetColorMapEntries { padding: u8, first: u16, colors: Seq<u8> },
    Bell,
    CutText { unused: Seq<u8>, text: Seq<u8> },
    /// The extended form: flags, and data.
    ExtendedCutText { unused: Seq<u8>, flags: Seq<u8>, data: Seq<u8> },
    EndOfContinuousUpdates,
    Fence { unused: Seq<u8>, flags: Seq<u8>, data: Seq<u8> },
}

impl ServerMessage {
    /// Whether the message can be written down.
    pub open spec fn valid(self) -> bool {
        match self {
            ServerMessage::SetColorMapEntries { colors, .. } => colors.len() % 6 == 0
                && colors.len() <= 6 * 65535,
            ServerMessage::Bell => true,
            ServerMessage::CutText { unused, text } => unused.len() == 3 && text.len() <= 4194304,
            ServerMessage::ExtendedCutText { unused, flags, data } => unused.len() == 3
                && flags.len() == 4 && data.len() <= 4194300,
            ServerMessage::EndOfContinuousUpdates => true,
            ServerMessage::Fence { unused, flags, data } => unused.len() == 3 && flags.len() == 4
                && data.len() <= 255,
        }
    }

    /// The bytes of the message.
    pub open spec fn bytes(self) -> Seq<u8> {
        match self {
            ServerMessage::SetColorMapEntries { padding, first, colors } => seq![1u8, padding]
                + two(first as int) + two(colors.len() as int / 6) + colors,
            ServerMessage::Bell => seq![2u8],
            ServerMessage::CutText { unused, text } => seq![3u8] + unused + four(text.len() as int)
                + text,
            ServerMessage::ExtendedCutText { unused, flags, data } => seq![3u8] + unused
                + signed_four(-(4 + data.len())) + flags + data,
            ServerMessage::EndOfContinuousUpdates => seq![150u8],
            ServerMessage::Fence { unused, flags, data } => seq![248u8] + unused + flags + one(
                data.len() as int,
            ) + data,
        }
    }

    /// What the parser should say about the message.
    pub open spec fn parsed(self) -> server::MessageView {
        match self {
            ServerMessage::SetColorMapEntries { .. } => server::MessageView::SetColorMapEntries(
                self.bytes(),
            ),
            ServerMessage::Bell => server::MessageView::Bell(self.bytes()),
            ServerMessage::CutText { .. } => server::MessageView::ServerCutText(self.bytes()),
            ServerMessage::ExtendedCutText { .. } => server::MessageView::ServerCutText(
                self.bytes(),
            ),
            ServerMessage::EndOfContinuousUpdates => server::MessageView::EndOfContinuousUpdates(
                self.bytes(),
            ),
            ServerMessage::Fence { .. } => server::MessageView::ServerFence(self.bytes()),
        }
    }
}

/// A message of a server that is not a framebuffer update is taken off the stream whole, once its
/// last byte is there and not before, whatever follows it, and whatever the size of a pixel.
#[verifier::spinoff_prover]
#[verifier::rlimit(60)]
pub proof fn law_server_messages_are_read_back(
    m: ServerMessage,
    rest: Seq<u8>,
    bytes_per_pixel: int,
)
    requires
        0 <= bytes_per_pixel,
        m.valid(),
    ensures
        server_message(m.bytes() + rest, bytes_per_pixel) == Ok::<_, ErrorView>(m.parsed()),
        m.parsed().payload() == m.bytes(),
        forall|n: int|
            0 <= n < m.bytes().len() ==> server_message(
                #[trigger] m.bytes().take(n),
                bytes_per_pixel,
            ) == Err::<server::MessageView, _>(ErrorView::Incomplete),
{
    let all = m.bytes();
    let s = all + rest;
    assert(forall|k: int| 0 <= k < all.len() ==> #[trigger] s[k] == all[k]);
    match m {
        ServerMessage::SetColorMapEntries { padding, first, colors } => {
            assert(s[0] == all[0] && s[4] == all[4] && s[5] == all[5]);
            lemma_number_reads(s, 4, colors.len() as int / 6);
        },
        ServerMessage::CutText { unused, text } => {
            assert(s[0] == all[0]);
            assert(s[4] == all[4] && s[5] == all[5] && s[6] == all[6] && s[7] == all[7]);
            lemma_number_reads(s, 4, text.len() as int);
        },
        ServerMessage::ExtendedCutText { unused, flags, data } => {
            assert(s[0] == all[0]);
            assert(s[4] == all[4] && s[5] == all[5] && s[6] == all[6] && s[7] == all[7]);
            lemma_number_reads(s, 4, -(4 + data.len()));
        },
        ServerMessage::Fence { unused, flags, data } => {
            assert(s[0] == all[0] && s[8] == all[8]);
        },
        _ => {
            assert(s[0] == all[0]);
        },
    }
    assert(s.subrange(0, all.len() as int) =~= all);
    assert forall|n: int| 0 <= n < all.len() implies server_message(
        #[trigger] m.bytes().take(n),
        bytes_per_pixel,
    ) == Err::<server::MessageView, _>(ErrorView::Incomplete) by {
        law_server_message_is_incomplete_before_its_end(s, n, bytes_per_pixel);
        assert(s.subrange(0, n) =~= all.take(n));
    }
}

/// A server message with an id that no message has is refused, and so is a text for the clipboard
/// that is longer than 4 MiB, in either form.
#[verifier::spinoff_prover]
#[verifier::rlimit(60)]
pub proof fn law_other_server_messages_are_refused(
    id: u8,
    unused: Seq<u8>,
    length: int,
    rest: Seq<u8>,
    bytes_per_pixel: int,
)
    requires
        unused.len() == 3,
    ensures
        id != 0 && id != 1 && id != 2 && id != 3 && id != 150 && id != 248 ==> server_message(
            seq![id] + rest,
            bytes_per_pixel,
        ) == Err::<server::MessageView, _>(ErrorView::Other(ParseErrorView::ServerMessage(id))),
        4194304 < length <= 2147483647 ==> server_message(
            seq![3u8] + unused + four(length) + rest,
            bytes_per_pixel,
        ) == Err::<server::MessageView, _>(
            ErrorView::Other(ParseErrorView::MessageTooLong(length)),
        ),
        4194304 < length <= 2147483648 ==> server_message(
            seq![3u8] + unused + signed_four(-length) + rest,
            bytes_per_pixel,
        ) == Err::<server::MessageView, _>(
            ErrorView::Other(ParseErrorView::MessageTooLong(length)),
        ),
{
    assert((seq![id] + rest)[0] == id);
    let plain = seq![3u8] + unused + four(length) + rest;
    let extended = seq![3u8] + unused + signed_four(-length) + rest;
    lemma_number_reads(plain, 4, length);
    lemma_number_reads(extended, 4, -length);
}

/// The extended form of a text for the clipboard has its flags even where its length says that it
/// is too short for them: nothing is done before they are there, and then the message is as long as
/// its length says.
pub proof fn law_short_extended_texts(
    unused: Seq<u8>,
    length: int,
    rest: Seq<u8>,
    bytes_per_pixel: int,
)
    requires
        unused.len() == 3,
        1 <= length <= 3,
    ensures
        ({
            let of_server = seq![3u8] + unused + signed_four(-length);
            let of_client = seq![6u8] + unused + signed_four(-length);
            &&& rest.len() < 4 ==> server_message(of_server + rest, bytes_per_pixel) == Err::<
                server::MessageView,
                _,
            >(ErrorView::Incomplete) && client_message(of_client + rest) == Err::<
                client::MessageView,
                _,
            >(ErrorView::Incomplete)
            &&& rest.len() >= 4 ==> server_message(of_server + rest, bytes_per_pixel) == Ok::<
                _,
                ErrorView,
            >(server::MessageView::ServerCutText(of_server + rest.take(length))) && client_message(
                of_client + rest,
            ) == Ok::<_, ErrorView>(
                client::MessageView::ClientCutText(of_client + rest.take(length)),
            )
        }),
{
    let of_server = seq![3u8] + unused + signed_four(-length) + rest;
    let of_client = seq![6u8] + unused + signed_four(-length) + rest;
    lemma_number_reads(of_server, 4, -length);
    lemma_number_reads(of_client, 4, -length);
    if rest.len() >= 4 {
        assert(of_server.subrange(0, 8 + length) =~= seq![3u8] + unused + signed_four(-length)
            + rest.take(length));
        assert(of_client.subrange(0, 8 + length) =~= seq![6u8] + unused + signed_four(-length)
            + rest.take(length));
    }
}

/// The messages of a client.
pub enum ClientMessage {
    SetPixelFormat { unused: Seq<u8>, format: Seq<u8> },
    SetEncodings { padding: u8, numbers: Seq<int> },
    FramebufferUpdateRequest { incremental: u8, x: u16, y: u16, width: u16, height: u16 },
    KeyEvent { down: u8, gap: u16, key: u32 },
    PointerEvent { buttons: u8, x: u16, y: u16 },
    CutText { unused: Seq<u8>, text: Seq<u8> },
    /// The extended form: flags, and data.
    ExtendedCutText { unused: Seq<u8>, flags: Seq<u8>, data: Seq<u8> },
    EnableContinuousUpdates { enable: u8, x: u16, y: u16, width: u16, height: u16 },
    Fence { unused: Seq<u8>, flags: Seq<u8>, data: Seq<u8> },
    SetDesktopSize { padding: u8, width: u16, height: u16, end: u8, screens: Seq<u8> },
    QemuExtendedKeyEvent { pressed: u16, keysym: u32, keycode: u32 },
    StartEncoder { enabled: u8, channels: u8, codec: u16, kbytes_per_sec: u16 },
    FrameRequest,
    StartContinuousUpdates,
}

/// Numbers of four bytes each, one after the other.
pub open spec fn number_bytes(numbers: Seq<int>) -> Seq<u8>
    decreases numbers.len(),
{
    if numbers.len() == 0 {
        Seq::empty()
    } else {
        number_bytes(numbers.drop_last()) + signed_four(numbers.last())
    }
}

impl ClientMessage {
    /// Whether the message can be written down.
    pub open spec fn valid(self) -> bool {
        match self {
            ClientMessage::SetPixelFormat { unused, format } => unused.len() == 3 && format.len()
                == 16,
            ClientMessage::SetEncodings { numbers, .. } => numbers.len() <= 65535 && forall|i: int|
                0 <= i < numbers.len() ==> -2147483648 <= #[trigger] numbers[i] <= 2147483647,
            ClientMessage::CutText { unused, text } => unused.len() == 3 && text.len() <= 4194304,
            ClientMessage::ExtendedCutText { unused, flags, data } => unused.len() == 3
                && flags.len() == 4 && data.len() <= 4194300,
            ClientMessage::Fence { unused, flags, data } => unused.len() == 3 && flags.len() == 4
                && data.len() <= 255,
            ClientMessage::SetDesktopSize { screens, .. } => screens.len() % 16 == 0
                && screens.len() <= 16 * 255,
            _ => true,
        }
    }

    /// The bytes of the message.
    pub open spec fn bytes(self) -> Seq<u8> {
        match self {
            ClientMessage::SetPixelFormat { unused, format } => seq![0u8] + unused + format,
            ClientMessage::SetEncodings { padding, numbers } => seq![2u8, padding] + two(
                numbers.len() as int,
            ) + number_bytes(numbers),
            ClientMessage::FramebufferUpdateRequest { incremental, x, y, width, height } => seq![
                3u8,
                incremental,
            ] + two(x as int) + two(y as int) + two(width as int) + two(height as int),
            ClientMessage::KeyEvent { down, gap, key } => seq![4u8, down] + two(gap as int) + four(
                key as int,
            ),
            ClientMessage::PointerEvent { buttons, x, y } => seq![5u8, buttons] + two(x as int)
                + two(y as int),
            ClientMessage::CutText { unused, text } => seq![6u8] + unused + four(text.len() as int)
                + text,
            ClientMessage::ExtendedCutText { unused, flags, data } => seq![6u8] + unused
                + signed_four(-(4 + data.len())) + flags + data,
            ClientMessage::EnableContinuousUpdates { enable, x, y, width, height } => seq![
                150u8,
                enable,
            ] + two(x as int) + two(y as int) + two(width as int) + two(height as int),
            ClientMessage::Fence { unused, flags, data } => seq![248u8] + unused + flags + one(
                data.len() as int,
            ) + data,
            ClientMessage::SetDesktopSize { padding, width, height, end, screens } => seq![
                251u8,
                padding,
            ] + two(width as int) + two(height as int) + one(screens.len() as int / 16) + seq![end]
                + screens,
            ClientMessage::QemuExtendedKeyEvent { pressed, keysym, keycode } => seq![255u8, 0u8] + two(
                pressed as int,
            ) + four(keysym as int) + four(keycode as int),
            ClientMessage::StartEncoder { enabled, channels, codec, kbytes_per_sec } => seq![
                245u8,
                0u8,
                0u8,
                6u8,
                enabled,
                channels,
            ] + two(codec as int) + two(kbytes_per_sec as int),
            ClientMessage::FrameRequest => seq![245u8, 1u8, 0u8, 0u8],
            ClientMessage::StartContinuousUpdates => seq![245u8, 2u8, 0u8, 0u8],
        }
    }

    /// What the parser should say about the message.
    pub open spec fn parsed(self) -> client::MessageView {
        match self {
            ClientMessage::SetPixelFormat { .. } => client::MessageView::SetPixelFormat(
                self.bytes(),
            ),
            ClientMessage::SetEncodings { .. } => client::MessageView::SetEncodings(self.bytes()),
            ClientMessage::FramebufferUpdateRequest { .. } =>
                client::MessageView::FramebufferUpdateRequest(self.bytes()),
            ClientMessage::KeyEvent { .. } => client::MessageView::KeyEvent(self.bytes()),
            ClientMessage::PointerEvent { .. } => client::MessageView::PointerEvent(self.bytes()),
            ClientMessage::CutText { .. } => client::MessageView::ClientCutText(self.bytes()),
            ClientMessage::ExtendedCutText { .. } => client::MessageView::ClientCutText(
                self.bytes(),
            ),
            ClientMessage::EnableContinuousUpdates { .. } =>
                client::MessageView::EnableContinuousUpdates(self.bytes()),
            ClientMessage::Fence { .. } => client::MessageView::ClientFence(self.bytes()),
            ClientMessage::SetDesktopSize { .. } => client::MessageView::SetDesktopSize(
                self.bytes(),
            ),
            ClientMessage::QemuExtendedKeyEvent { .. } => client::MessageView::QemuClientMessage(
                self.bytes(),
            ),
            ClientMessage::StartEncoder { enabled, channels, codec, kbytes_per_sec } =>
                client::MessageView::ReplitClientAudioStartEncoder(
                self.bytes(),
                enabled != 0,
                channels,
                codec,
                kbytes_per_sec,
            ),
            ClientMessage::FrameRequest => client::MessageView::ReplitClientAudioFrameRequest(
                self.bytes(),
            ),
            ClientMessage::StartContinuousUpdates =>
                client::MessageView::ReplitClientAudioStartContinuousUpdates(self.bytes()),
        }
    }
}

proof fn lemma_number_bytes(numbers: Seq<int>)
    ensures
        number_bytes(numbers).len() == 4 * numbers.len(),
        forall|i: int, k: int|
            #![trigger numbers[i], signed_four(numbers[i])[k]]
            0 <= i < numbers.len() && 0 <= k < 4 ==> number_bytes(numbers)[4 * i + k]
                == signed_four(numbers[i])[k],
    decreases numbers.len(),
{
    if numbers.len() > 0 {
        let earlier = numbers.drop_last();
        lemma_number_bytes(earlier);
        assert forall|i: int, k: int|
            #![trigger numbers[i], signed_four(numbers[i])[k]]
            0 <= i < numbers.len() && 0 <= k < 4 implies number_bytes(numbers)[4 * i + k]
            == signed_four(numbers[i])[k] by {
            if i < earlier.len() {
                assert(earlier[i] == numbers[i]);
                assert(number_bytes(earlier)[4 * i + k] == signed_four(earlier[i])[k]);
            }
        }
    }
}

/// A message of a client is taken off the stream whole, once its last byte is there and not before,
/// and whatever follows it. What a request to start an encoder asks for is what was written there.
#[verifier::spinoff_prover]
#[verifier::rlimit(60)]
pub proof fn law_client_messages_are_read_back(m: ClientMessage, rest: Seq<u8>)
    requires
        m.valid(),
    ensures
        client_message(m.bytes() + rest) == Ok::<_, ErrorView>(m.parsed()),
        m.parsed().payload() == m.bytes(),
        forall|n: int|
            0 <= n < m.bytes().len() ==> client_message(#[trigger] m.bytes().take(n)) == Err::<
                client::MessageView,
                _,
            >(ErrorView::Incomplete),
{
    let all = m.bytes();
    let s = all + rest;
    assert(forall|k: int| 0 <= k < all.len() ==> #[trigger] s[k] == all[k]);
    assert(s[0] == all[0]);
    match m {
        ClientMessage::SetEncodings { padding, numbers } => {
            assert(s[2] == all[2] && s[3] == all[3]);
            lemma_number_reads(s, 2, numbers.len() as int);
            lemma_number_bytes(numbers);
        },
        ClientMessage::CutText { unused, text } => {
            assert(s[4] == all[4] && s[5] == all[5] && s[6] == all[6] && s[7] == all[7]);
            lemma_number_reads(s, 4, text.len() as int);
        },
        ClientMessage::ExtendedCutText { unused, flags, data } => {
            assert(s[4] == all[4] && s[5] == all[5] && s[6] == all[6] && s[7] == all[7]);
            lemma_number_reads(s, 4, -(4 + data.len()));
        },
        ClientMessage::Fence { unused, flags, data } => {
            assert(s[8] == all[8]);
        },
        ClientMessage::SetDesktopSize { padding, width, height, end, screens } => {
            assert(s[6] == all[6]);
        },
        ClientMessage::QemuExtendedKeyEvent { pressed, keysym, keycode } => {
            assert(s[1] == all[1]);
        },
        ClientMessage::StartEncoder { enabled, channels, codec, kbytes_per_sec } => {
            assert(s[1] == all[1] && s[2] == all[2] && s[3] == all[3] && s[4] == all[4] && s[5]
                == all[5]);
            assert(s[6] == all[6] && s[7] == all[7] && s[8] == all[8] && s[9] == all[9]);
            lemma_number_reads(s, 2, 6);
            lemma_number_reads(s, 6, codec as int);
            lemma_number_reads(s, 8, kbytes_per_sec as int);
        },
        ClientMessage::FrameRequest => {
            assert(s[1] == all[1] && s[2] == all[2] && s[3] == all[3]);
        },
        ClientMessage::StartContinuousUpdates => {
            assert(s[1] == all[1] && s[2] == all[2] && s[3] == all[3]);
        },
        _ => {},
    }
    assert(s.subrange(0, all.len() as int) =~= all);
    assert forall|n: int| 0 <= n < all.len() implies client_message(#[trigger] m.bytes().take(n))
        == Err::<client::MessageView, _>(ErrorView::Incomplete) by {
        law_client_message_is_incomplete_before_its_end(s, n);
        assert(s.subrange(0, n) =~= all.take(n));
    }
}

/// The encodings that a SetEncodings message lists are the numbers that were written into it.
pub proof fn law_encodings_are_read_back(padding: u8, numbers: Seq<int>)
    requires
        (ClientMessage::SetEncodings { padding, numbers }).valid(),
    ensures
        encodings((ClientMessage::SetEncodings { padding, numbers }).bytes()) == numbers,
{
    let all = (ClientMessage::SetEncodings { padding, numbers }).bytes();
    lemma_number_bytes(numbers);
    let listed = encodings(all);
    assert forall|i: int| 0 <= i < numbers.len() implies listed[i] == numbers[i] by {
        let n = numbers[i];
        let at = 4 + 4 * i;
        assert(number_bytes(numbers)[4 * i + 0] == signed_four(n)[0]);
        assert(number_bytes(numbers)[4 * i + 1] == signed_four(n)[1]);
        assert(number_bytes(numbers)[4 * i + 2] == signed_four(n)[2]);
        assert(number_bytes(numbers)[4 * i + 3] == signed_four(n)[3]);
        assert(all[at] == number_bytes(numbers)[4 * i + 0]);
        assert(all[at + 1] == number_bytes(numbers)[4 * i + 1]);
        assert(all[at + 2] == number_bytes(numbers)[4 * i + 2]);
        assert(all[at + 3] == number_bytes(numbers)[4 * i + 3]);
        lemma_number_reads(all, at, n);
    }
    assert(listed =~= numbers);
}

/// A client message with an id that no message has is refused, and so is a text for the clipboard
/// that is longer than 4 MiB, in either form, and a message about audio or of QEMU that does not
/// have the form that its kind has.
#[verifier::spinoff_prover]
#[verifier::rlimit(60)]
pub proof fn law_other_client_messages_are_refused(
    id: u8,
    unused: Seq<u8>,
    length: int,
    rest: Seq<u8>,
)
    requires
        unused.len() == 3,
    ensures
        ({
            let s = seq![id] + rest;
            id != 0 && id != 2 && id != 3 && id != 4 && id != 5 && id != 6 && id != 150 && id != 245
                && id != 248 && id != 251 && id != 255 ==> client_message(s) == Err::<
                client::MessageView,
                _,
            >(ErrorView::Other(ParseErrorView::ClientMessage(id, s)))
        }),
        4194304 < length <= 2147483647 ==> client_message(
            seq![6u8] + unused + four(length) + rest,
        ) == Err::<client::MessageView, _>(
            ErrorView::Other(ParseErrorView::MessageTooLong(length)),
        ),
        4194304 < length <= 2147483648 ==> client_message(
            seq![6u8] + unused + signed_four(-length) + rest,
        ) == Err::<client::MessageView, _>(
            ErrorView::Other(ParseErrorView::MessageTooLong(length)),
        ),
        0 <= length <= 65535 && length != 6 ==> client_message(
            seq![245u8, 0u8] + two(length) + rest,
        ) == Err::<client::MessageView, _>(
            ErrorView::Other(ParseErrorView::StartEncoderLength(length)),
        ),
        0 < length <= 65535 ==> client_message(seq![245u8, 1u8] + two(length) + rest) == Err::<
            client::MessageView,
            _,
        >(ErrorView::Other(ParseErrorView::FrameRequestLength(length))),
        0 < length <= 65535 ==> client_message(seq![245u8, 2u8] + two(length) + rest) == Err::<
            client::MessageView,
            _,
        >(ErrorView::Other(ParseErrorView::ContinuousUpdatesLength(length))),
        ({
            let s = seq![245u8, id] + rest;
            id > 2 && rest.len() >= 2 ==> client_message(s) == Err::<client::MessageView, _>(
                ErrorView::Other(ParseErrorView::ReplitSubmessage(id, s)),
            )
        }),
        ({
            let s = seq![255u8, id] + rest;
            id > 0 ==> client_message(s) == Err::<client::MessageView, _>(
                ErrorView::Other(ParseErrorView::QemuSubmessage(id, s)),
            )
        }),
{
    assert((seq![id] + rest)[0] == id);
    let plain = seq![6u8] + unused + four(length) + rest;
    let extended = seq![6u8] + unused + signed_four(-length) + rest;
    lemma_number_reads(plain, 4, length);
    lemma_number_reads(extended, 4, -length);
    lemma_number_reads(seq![245u8, 0u8] + two(length) + rest, 2, length);
    lemma_number_reads(seq![245u8, 1u8] + two(length) + rest, 2, length);
    lemma_number_reads(seq![245u8, 2u8] + two(length) + rest, 2, length);
}

} // verus!
