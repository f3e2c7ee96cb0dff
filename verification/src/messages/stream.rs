//! How messages follow from a stream of bytes that arrives in pieces.
//!
//! The parsers look at whatever has arrived so far. What is stated here is why that is enough: the
//! way in which a stream is cut into pieces does not change the messages that come out of it, and
//! no byte is lost, added or moved on the way.

use vstd::prelude::*;

use super::client;
use super::client::client_message;
use super::io::{be16, be32, be_i32, compact, cut_text, first_bytes};
use super::server;
use super::server::{rectangle, rectangle_content, rectangles, server_message, RectangleEnd};
use super::{ErrorView, ParseErrorView};

verus! {

/// Whether two errors have the same cause. The bytes that an error quotes may differ.
pub open spec fn same_cause(a: ErrorView, b: ErrorView) -> bool {
    match (a, b) {
        (
            ErrorView::Other(ParseErrorView::ReplitSubmessage(x, _)),
            ErrorView::Other(ParseErrorView::ReplitSubmessage(y, _)),
        ) => x == y,
        (
            ErrorView::Other(ParseErrorView::QemuSubmessage(x, _)),
            ErrorView::Other(ParseErrorView::QemuSubmessage(y, _)),
        ) => x == y,
        (
            ErrorView::Other(ParseErrorView::ClientMessage(x, _)),
            ErrorView::Other(ParseErrorView::ClientMessage(y, _)),
        ) => x == y,
        _ => a == b,
    }
}

/// The numbers in a buffer stay what they are when more bytes arrive.
proof fn lemma_numbers_stay(s: Seq<u8>, t: Seq<u8>, i: int)
    requires
        0 <= i,
    ensures
        i + 1 <= s.len() ==> (s + t)[i] == s[i],
        i + 2 <= s.len() ==> be16(s + t, i) == be16(s, i),
        i + 4 <= s.len() ==> be32(s + t, i) == be32(s, i) && be_i32(s + t, i) == be_i32(s, i),
        compact(s, i) is Some ==> compact(s + t, i) == compact(s, i),
{
}

proof fn lemma_first_bytes_stay(s: Seq<u8>, t: Seq<u8>, n: int)
    requires
        0 <= n,
    ensures
        first_bytes(s, n) is Ok ==> first_bytes(s + t, n) == first_bytes(s, n),
{
    if n <= s.len() {
        assert((s + t).subrange(0, n) =~= s.subrange(0, n));
    }
}

proof fn lemma_cut_text_stays(s: Seq<u8>, t: Seq<u8>)
    ensures
        cut_text(s) != Err::<Seq<u8>, ErrorView>(ErrorView::Incomplete) ==> cut_text(s + t)
            == cut_text(s),
{
    lemma_numbers_stay(s, t, 4);
    if s.len() >= 8 {
        let length = be_i32(s, 4);
        lemma_first_bytes_stay(
            s,
            t,
            8 + if length >= 0 {
                length
            } else {
                -length
            },
        );
    }
}

/// A clipboard message is the start of the buffer that it was found in.
proof fn lemma_cut_text_is_prefix(s: Seq<u8>)
    ensures
        cut_text(s) matches Ok(payload) ==> 8 <= payload.len() <= s.len() && payload == s.subrange(
            0,
            payload.len() as int,
        ),
{
}

/// What a client message is does not change when more bytes arrive behind it; nor does the reason
/// why there will never be one.
pub proof fn law_client_message_is_final(s: Seq<u8>, t: Seq<u8>)
    ensures
        match client_message(s) {
            Ok(message) => client_message(s + t) == Ok::<client::MessageView, ErrorView>(message),
            Err(e) => e is Incomplete || (client_message(s + t) matches Err(f) && same_cause(e, f)),
        },
{
    lemma_cut_text_stays(s, t);
    lemma_numbers_stay(s, t, 0);
    lemma_numbers_stay(s, t, 1);
    lemma_numbers_stay(s, t, 2);
    lemma_numbers_stay(s, t, 4);
    lemma_numbers_stay(s, t, 5);
    lemma_numbers_stay(s, t, 6);
    lemma_numbers_stay(s, t, 8);
    if s.len() > 0 {
        lemma_first_bytes_stay(s, t, 12);
        lemma_first_bytes_stay(s, t, 10);
        lemma_first_bytes_stay(s, t, 4);
        if let Some(n) = client::counted_length(s) {
            lemma_first_bytes_stay(s, t, n);
        }
    }
}

/// A client message is the start of the buffer that it was found in.
pub proof fn law_client_message_is_prefix(s: Seq<u8>)
    ensures
        client_message(s) matches Ok(message) ==> 0 < message.payload().len() <= s.len()
            && message.payload() == s.subrange(0, message.payload().len() as int),
{
    lemma_cut_text_is_prefix(s);
}

proof fn lemma_rectangle_content_stays(
    s: Seq<u8>,
    t: Seq<u8>,
    p: int,
    width: int,
    height: int,
    encoding: int,
    bytes_per_pixel: int,
)
    requires
        0 <= p,
    ensures
        rectangle_content(s, p, width, height, encoding, bytes_per_pixel) != RectangleEnd::Unknown(
            ErrorView::Incomplete,
        ) ==> rectangle_content(s + t, p, width, height, encoding, bytes_per_pixel)
            == rectangle_content(s, p, width, height, encoding, bytes_per_pixel),
{
    lemma_numbers_stay(s, t, p);
    lemma_numbers_stay(s, t, p + 1);
    lemma_numbers_stay(s, t, p + 2);
    if p < s.len() {
        let colors = s[p + 1] + 1;
        let filtered_colors = s[p + 2] + 1;
        lemma_numbers_stay(s, t, p + 2 + 3 * colors);
        lemma_numbers_stay(s, t, p + 3 + 3 * filtered_colors);
    }
}

proof fn lemma_rectangle_stays(s: Seq<u8>, t: Seq<u8>, p: int, bytes_per_pixel: int)
    requires
        0 <= p,
    ensures
        rectangle(s, p, bytes_per_pixel) != RectangleEnd::Unknown(ErrorView::Incomplete)
            ==> rectangle(s + t, p, bytes_per_pixel) == rectangle(s, p, bytes_per_pixel),
{
    lemma_numbers_stay(s, t, p + 4);
    lemma_numbers_stay(s, t, p + 6);
    lemma_numbers_stay(s, t, p + 8);
    lemma_rectangle_content_stays(
        s,
        t,
        p + 12,
        be16(s, p + 4),
        be16(s, p + 6),
        be_i32(s, p + 8),
        bytes_per_pixel,
    );
}

proof fn lemma_rectangle_in_bounds(s: Seq<u8>, p: int, bytes_per_pixel: int)
    requires
        0 <= p,
        0 <= bytes_per_pixel,
    ensures
        match rectangle(s, p, bytes_per_pixel) {
            RectangleEnd::Next(end) => p + 12 <= end <= s.len(),
            RectangleEnd::Last(end) => p + 12 <= end <= s.len(),
            RectangleEnd::Unknown(_) => true,
        },
{
    let width = be16(s, p + 4);
    let height = be16(s, p + 6);
    assert(0 <= width * height * bytes_per_pixel) by (nonlinear_arith)
        requires
            0 <= width,
            0 <= height,
            0 <= bytes_per_pixel,
    ;
    assert(0 <= width * height) by (nonlinear_arith)
        requires
            0 <= width,
            0 <= height,
    ;
    assert(0 <= server::row_size(width, 1) * height) by (nonlinear_arith)
        requires
            0 <= server::row_size(width, 1),
            0 <= height,
    ;
    assert(0 <= server::row_size(width, 8) * height) by (nonlinear_arith)
        requires
            0 <= server::row_size(width, 8),
            0 <= height,
    ;
}

proof fn lemma_rectangles_in_bounds(s: Seq<u8>, p: int, n: nat, bytes_per_pixel: int)
    requires
        0 <= p <= s.len(),
        0 <= bytes_per_pixel,
    ensures
        rectangles(s, p, n, bytes_per_pixel) matches Ok(end) ==> p <= end <= s.len(),
    decreases n,
{
    if n > 0 {
        lemma_rectangle_in_bounds(s, p, bytes_per_pixel);
        if let RectangleEnd::Next(next) = rectangle(s, p, bytes_per_pixel) {
            lemma_rectangles_in_bounds(s, next, (n - 1) as nat, bytes_per_pixel);
        }
    }
}

proof fn lemma_rectangles_stay(s: Seq<u8>, t: Seq<u8>, p: int, n: nat, bytes_per_pixel: int)
    requires
        0 <= p <= s.len(),
        0 <= bytes_per_pixel,
    ensures
        rectangles(s, p, n, bytes_per_pixel) != Err::<int, ErrorView>(ErrorView::Incomplete)
            ==> rectangles(s + t, p, n, bytes_per_pixel) == rectangles(s, p, n, bytes_per_pixel),
    decreases n,
{
    if n > 0 {
        lemma_rectangle_stays(s, t, p, bytes_per_pixel);
        lemma_rectangle_in_bounds(s, p, bytes_per_pixel);
        if let RectangleEnd::Next(next) = rectangle(s, p, bytes_per_pixel) {
            lemma_rectangles_stay(s, t, next, (n - 1) as nat, bytes_per_pixel);
        }
    }
}

/// What a server message is does not change when more bytes arrive behind it; nor does the reason
/// why there will never be one.
pub proof fn law_server_message_is_final(s: Seq<u8>, t: Seq<u8>, bytes_per_pixel: int)
    requires
        0 <= bytes_per_pixel,
    ensures
        server_message(s, bytes_per_pixel) == Err::<server::MessageView, ErrorView>(
            ErrorView::Incomplete,
        ) || server_message(s + t, bytes_per_pixel) == server_message(s, bytes_per_pixel),
{
    lemma_cut_text_stays(s, t);
    lemma_numbers_stay(s, t, 0);
    lemma_numbers_stay(s, t, 2);
    lemma_numbers_stay(s, t, 4);
    lemma_numbers_stay(s, t, 8);
    if s.len() > 0 {
        lemma_first_bytes_stay(s, t, 1);
        assert((s + t).subrange(0, 1) =~= s.subrange(0, 1));
        lemma_first_bytes_stay(s, t, 6 + be16(s, 4) * 6);
        lemma_first_bytes_stay(s, t, 9 + s[8]);
        if s.len() >= 4 {
            let n = be16(s, 2) as nat;
            lemma_rectangles_stay(s, t, 4, n, bytes_per_pixel);
            lemma_rectangles_in_bounds(s, 4, n, bytes_per_pixel);
            if let Ok(end) = rectangles(s, 4, n, bytes_per_pixel) {
                lemma_first_bytes_stay(s, t, end);
            }
        }
    }
}

/// A server message is the start of the buffer that it was found in.
pub proof fn law_server_message_is_prefix(s: Seq<u8>, bytes_per_pixel: int)
    requires
        0 <= bytes_per_pixel,
    ensures
        server_message(s, bytes_per_pixel) matches Ok(message) ==> 0 < message.payload().len()
            <= s.len() && message.payload() == s.subrange(0, message.payload().len() as int),
{
    lemma_cut_text_is_prefix(s);
    if s.len() >= 4 {
        lemma_rectangles_in_bounds(s, 4, be16(s, 2) as nat, bytes_per_pixel);
    }
}

/// Up to its last byte, a client message counts as incomplete.
pub proof fn law_client_message_is_incomplete_before_its_end(s: Seq<u8>, n: int)
    requires
        client_message(s) matches Ok(message) && 0 <= n < message.payload().len(),
    ensures
        client_message(s.subrange(0, n)) == Err::<client::MessageView, ErrorView>(
            ErrorView::Incomplete,
        ),
{
    law_client_message_is_prefix(s);
    let head = s.subrange(0, n);
    let tail = s.subrange(n, s.len() as int);
    assert(head + tail =~= s);
    law_client_message_is_prefix(head);
    law_client_message_is_final(head, tail);
}

/// Up to its last byte, a server message counts as incomplete.
pub proof fn law_server_message_is_incomplete_before_its_end(
    s: Seq<u8>,
    n: int,
    bytes_per_pixel: int,
)
    requires
        0 <= bytes_per_pixel,
        server_message(s, bytes_per_pixel) matches Ok(message) && 0 <= n < message.payload().len(),
    ensures
        server_message(s.subrange(0, n), bytes_per_pixel) == Err::<server::MessageView, ErrorView>(
            ErrorView::Incomplete,
        ),
{
    law_server_message_is_prefix(s, bytes_per_pixel);
    let head = s.subrange(0, n);
    let tail = s.subrange(n, s.len() as int);
    assert(head + tail =~= s);
    law_server_message_is_prefix(head, bytes_per_pixel);
    law_server_message_is_final(head, tail, bytes_per_pixel);
}

/// The client message at the start of `s`, if there is a whole one.
#[verifier::opaque]
pub open spec fn next_client_message(s: Seq<u8>) -> Option<client::MessageView> {
    match client_message(s) {
        Ok(message) => Some(message),
        Err(_) => None,
    }
}

/// The server message at the start of `s`, if there is a whole one.
#[verifier::opaque]
pub open spec fn next_server_message(s: Seq<u8>, bytes_per_pixel: int) -> Option<
    server::MessageView,
> {
    match server_message(s, bytes_per_pixel) {
        Ok(message) => Some(message),
        Err(_) => None,
    }
}

proof fn lemma_next_client_message(s: Seq<u8>, t: Seq<u8>)
    ensures
        next_client_message(s) matches Some(message) ==> 0 < message.payload().len() <= s.len()
            && message.payload() == s.subrange(0, message.payload().len() as int)
            && next_client_message(s + t) == Some(message),
{
    reveal(next_client_message);
    law_client_message_is_prefix(s);
    law_client_message_is_final(s, t);
}

proof fn lemma_next_server_message(s: Seq<u8>, t: Seq<u8>, bytes_per_pixel: int)
    requires
        0 <= bytes_per_pixel,
    ensures
        next_server_message(s, bytes_per_pixel) matches Some(message) ==> 0
            < message.payload().len() <= s.len() && message.payload() == s.subrange(
            0,
            message.payload().len() as int,
        ) && next_server_message(s + t, bytes_per_pixel) == Some(message),
{
    reveal(next_server_message);
    law_server_message_is_prefix(s, bytes_per_pixel);
    law_server_message_is_final(s, t, bytes_per_pixel);
}

/// The client messages that can be taken off the start of `s`, one after the other.
pub open spec fn client_messages(s: Seq<u8>) -> Seq<client::MessageView>
    decreases s.len(),
{
    match next_client_message(s) {
        Some(message) => if 0 < message.payload().len() <= s.len() {
            seq![message] + client_messages(
                s.subrange(message.payload().len() as int, s.len() as int),
            )
        } else {
            Seq::empty()
        },
        None => Seq::empty(),
    }
}

/// What is left of `s` once its client messages have been taken off.
pub open spec fn client_rest(s: Seq<u8>) -> Seq<u8>
    decreases s.len(),
{
    match next_client_message(s) {
        Some(message) => if 0 < message.payload().len() <= s.len() {
            client_rest(s.subrange(message.payload().len() as int, s.len() as int))
        } else {
            s
        },
        None => s,
    }
}

/// The raw bytes of client messages, one after the other.
pub open spec fn client_payloads(messages: Seq<client::MessageView>) -> Seq<u8>
    decreases messages.len(),
{
    if messages.len() == 0 {
        Seq::empty()
    } else {
        messages[0].payload() + client_payloads(messages.drop_first())
    }
}

/// No byte of the client's stream is lost, added or moved: the messages and what is left make up
/// the stream.
pub proof fn law_client_stream_is_conserved(s: Seq<u8>)
    ensures
        client_payloads(client_messages(s)) + client_rest(s) == s,
    decreases s.len(),
{
    lemma_next_client_message(s, Seq::empty());
    if let Some(message) = next_client_message(s) {
        let rest = s.subrange(message.payload().len() as int, s.len() as int);
        let later = client_payloads(client_messages(rest));
        law_client_stream_is_conserved(rest);
        assert(client_messages(s).drop_first() =~= client_messages(rest));
        assert(message.payload() + rest =~= s);
        assert((message.payload() + later) + client_rest(rest) =~= message.payload() + (later
            + client_rest(rest)));
    }
}

/// The pieces in which the client's stream arrives do not matter: the messages of the whole are the
/// messages of its beginning, and then those of what that left together with what came later.
pub proof fn law_client_stream_can_be_cut_anywhere(a: Seq<u8>, b: Seq<u8>)
    ensures
        client_messages(a + b) == client_messages(a) + client_messages(client_rest(a) + b),
        client_rest(a + b) == client_rest(client_rest(a) + b),
    decreases a.len(),
{
    lemma_next_client_message(a, b);
    if let Some(message) = next_client_message(a) {
        let n = message.payload().len() as int;
        let rest = a.subrange(n, a.len() as int);
        law_client_stream_can_be_cut_anywhere(rest, b);
        assert((a + b).subrange(n, (a + b).len() as int) =~= rest + b);
    }
    assert(client_messages(a + b) =~= client_messages(a) + client_messages(client_rest(a) + b));
}

/// The server messages that can be taken off the start of `s`, one after the other.
pub open spec fn server_messages(s: Seq<u8>, bytes_per_pixel: int) -> Seq<server::MessageView>
    decreases s.len(),
{
    match next_server_message(s, bytes_per_pixel) {
        Some(message) => if 0 < message.payload().len() <= s.len() {
            seq![message] + server_messages(
                s.subrange(message.payload().len() as int, s.len() as int),
                bytes_per_pixel,
            )
        } else {
            Seq::empty()
        },
        None => Seq::empty(),
    }
}

/// What is left of `s` once its server messages have been taken off.
pub open spec fn server_rest(s: Seq<u8>, bytes_per_pixel: int) -> Seq<u8>
    decreases s.len(),
{
    match next_server_message(s, bytes_per_pixel) {
        Some(message) => if 0 < message.payload().len() <= s.len() {
            server_rest(s.subrange(message.payload().len() as int, s.len() as int), bytes_per_pixel)
        } else {
            s
        },
        None => s,
    }
}

/// The raw bytes of server messages, one after the other.
pub open spec fn server_payloads(messages: Seq<server::MessageView>) -> Seq<u8>
    decreases messages.len(),
{
    if messages.len() == 0 {
        Seq::empty()
    } else {
        messages[0].payload() + server_payloads(messages.drop_first())
    }
}

/// No byte of the server's stream is lost, added or moved: the messages and what is left make up
/// the stream.
pub proof fn law_server_stream_is_conserved(s: Seq<u8>, bytes_per_pixel: int)
    requires
        0 <= bytes_per_pixel,
    ensures
        server_payloads(server_messages(s, bytes_per_pixel)) + server_rest(s, bytes_per_pixel) == s,
    decreases s.len(),
{
    lemma_next_server_message(s, Seq::empty(), bytes_per_pixel);
    if let Some(message) = next_server_message(s, bytes_per_pixel) {
        let rest = s.subrange(message.payload().len() as int, s.len() as int);
        let later = server_payloads(server_messages(rest, bytes_per_pixel));
        law_server_stream_is_conserved(rest, bytes_per_pixel);
        assert(server_messages(s, bytes_per_pixel).drop_first() =~= server_messages(
            rest,
            bytes_per_pixel,
        ));
        assert(message.payload() + rest =~= s);
        assert((message.payload() + later) + server_rest(rest, bytes_per_pixel)
            =~= message.payload() + (later + server_rest(rest, bytes_per_pixel)));
    }
}

/// The pieces in which the server's stream arrives do not matter: the messages of the whole are the
/// messages of its beginning, and then those of what that left together with what came later.
pub proof fn law_server_stream_can_be_cut_anywhere(a: Seq<u8>, b: Seq<u8>, bytes_per_pixel: int)
    requires
        0 <= bytes_per_pixel,
    ensures
        server_messages(a + b, bytes_per_pixel) == server_messages(a, bytes_per_pixel)
            + server_messages(server_rest(a, bytes_per_pixel) + b, bytes_per_pixel),
        server_rest(a + b, bytes_per_pixel) == server_rest(
            server_rest(a, bytes_per_pixel) + b,
            bytes_per_pixel,
        ),
    decreases a.len(),
{
    lemma_next_server_message(a, b, bytes_per_pixel);
    if let Some(message) = next_server_message(a, bytes_per_pixel) {
        let n = message.payload().len() as int;
        let rest = a.subrange(n, a.len() as int);
        law_server_stream_can_be_cut_anywhere(rest, b, bytes_per_pixel);
        assert((a + b).subrange(n, (a + b).len() as int) =~= rest + b);
    }
    assert(server_messages(a + b, bytes_per_pixel) =~= server_messages(a, bytes_per_pixel)
        + server_messages(server_rest(a, bytes_per_pixel) + b, bytes_per_pixel));
}

/// Whether a clipboard message has the extended form, but is too short for its flags.
pub open spec fn lacks_flags(payload: Seq<u8>) -> bool {
    be_i32(payload, 4) < 0 && payload.len() < 12
}

/// The numbers in a buffer stay what they are when bytes behind them are cut off.
proof fn lemma_numbers_stay_before(s: Seq<u8>, n: int, i: int)
    requires
        0 <= i,
        0 <= n <= s.len(),
    ensures
        i + 1 <= n ==> s.subrange(0, n)[i] == s[i],
        i + 2 <= n ==> be16(s.subrange(0, n), i) == be16(s, i),
        i + 4 <= n ==> be32(s.subrange(0, n), i) == be32(s, i) && be_i32(s.subrange(0, n), i)
            == be_i32(s, i),
        compact(s, i) matches Some((_, end)) && end <= n ==> compact(s.subrange(0, n), i)
            == compact(s, i),
{
}

proof fn lemma_cut_text_again(s: Seq<u8>)
    ensures
        cut_text(s) matches Ok(payload) ==> (!lacks_flags(payload) ==> cut_text(payload) == Ok::<
            _,
            ErrorView,
        >(payload)),
{
    if let Ok(payload) = cut_text(s) {
        let n = payload.len() as int;
        lemma_numbers_stay_before(s, n, 4);
        assert(payload.subrange(0, n) =~= payload);
    }
}

/// The raw bytes of a client message are that message: parsed again, they give it back. The
/// clipboard messages that are too short for their flags are the exception: those bytes alone count
/// as incomplete.
pub proof fn law_client_message_is_its_payload(s: Seq<u8>)
    requires
        client_message(s) matches Ok(message) && !(message is ClientCutText && lacks_flags(
            message.payload(),
        )),
    ensures
        client_message(s) matches Ok(message) && client_message(message.payload()) == Ok::<
            _,
            ErrorView,
        >(message),
{
    law_client_message_is_prefix(s);
    if let Ok(message) = client_message(s) {
        let payload = message.payload();
        let n = payload.len() as int;
        lemma_cut_text_again(s);
        lemma_numbers_stay_before(s, n, 0);
        lemma_numbers_stay_before(s, n, 1);
        lemma_numbers_stay_before(s, n, 2);
        lemma_numbers_stay_before(s, n, 4);
        lemma_numbers_stay_before(s, n, 5);
        lemma_numbers_stay_before(s, n, 6);
        lemma_numbers_stay_before(s, n, 8);
        assert(payload.subrange(0, n) =~= payload);
    }
}

proof fn lemma_rectangle_again(s: Seq<u8>, p: int, n: int, bytes_per_pixel: int)
    requires
        0 <= p,
        0 <= n <= s.len(),
        0 <= bytes_per_pixel,
        match rectangle(s, p, bytes_per_pixel) {
            RectangleEnd::Next(end) => end <= n,
            RectangleEnd::Last(end) => end <= n,
            RectangleEnd::Unknown(_) => false,
        },
    ensures
        rectangle(s.subrange(0, n), p, bytes_per_pixel) == rectangle(s, p, bytes_per_pixel),
{
    lemma_rectangle_in_bounds(s, p, bytes_per_pixel);
    let q = p + 12;
    lemma_numbers_stay_before(s, n, p + 4);
    lemma_numbers_stay_before(s, n, p + 6);
    lemma_numbers_stay_before(s, n, p + 8);
    lemma_numbers_stay_before(s, n, q);
    lemma_numbers_stay_before(s, n, q + 1);
    lemma_numbers_stay_before(s, n, q + 2);
    let colors = s[q + 1] + 1;
    let filtered_colors = s[q + 2] + 1;
    lemma_numbers_stay_before(s, n, q + 2 + 3 * colors);
    lemma_numbers_stay_before(s, n, q + 3 + 3 * filtered_colors);
    let width = be16(s, p + 4);
    let height = be16(s, p + 6);
    assert(0 <= width * height * bytes_per_pixel) by (nonlinear_arith)
        requires
            0 <= width,
            0 <= height,
            0 <= bytes_per_pixel,
    ;
    assert(0 <= width * height) by (nonlinear_arith)
        requires
            0 <= width,
            0 <= height,
    ;
    assert(0 <= server::row_size(width, 1) * height) by (nonlinear_arith)
        requires
            0 <= server::row_size(width, 1),
            0 <= height,
    ;
    assert(0 <= server::row_size(width, 8) * height) by (nonlinear_arith)
        requires
            0 <= server::row_size(width, 8),
            0 <= height,
    ;
}

proof fn lemma_rectangles_again(s: Seq<u8>, p: int, count: nat, n: int, bytes_per_pixel: int)
    requires
        0 <= p <= s.len(),
        0 <= n <= s.len(),
        0 <= bytes_per_pixel,
        rectangles(s, p, count, bytes_per_pixel) matches Ok(end) && end <= n,
    ensures
        rectangles(s.subrange(0, n), p, count, bytes_per_pixel) == rectangles(
            s,
            p,
            count,
            bytes_per_pixel,
        ),
    decreases count,
{
    if count > 0 {
        lemma_rectangle_in_bounds(s, p, bytes_per_pixel);
        if let RectangleEnd::Next(next) = rectangle(s, p, bytes_per_pixel) {
            lemma_rectangles_in_bounds(s, next, (count - 1) as nat, bytes_per_pixel);
            lemma_rectangles_again(s, next, (count - 1) as nat, n, bytes_per_pixel);
        }
        lemma_rectangle_again(s, p, n, bytes_per_pixel);
    }
}

/// The raw bytes of a server message are that message: parsed again, they give it back. The
/// clipboard messages that are too short for their flags are the exception: those bytes alone count
/// as incomplete.
pub proof fn law_server_message_is_its_payload(s: Seq<u8>, bytes_per_pixel: int)
    requires
        0 <= bytes_per_pixel,
        server_message(s, bytes_per_pixel) matches Ok(message) && !(message is ServerCutText
            && lacks_flags(message.payload())),
    ensures
        server_message(s, bytes_per_pixel) matches Ok(message) && server_message(
            message.payload(),
            bytes_per_pixel,
        ) == Ok::<_, ErrorView>(message),
{
    law_server_message_is_prefix(s, bytes_per_pixel);
    if let Ok(message) = server_message(s, bytes_per_pixel) {
        let payload = message.payload();
        let n = payload.len() as int;
        lemma_cut_text_again(s);
        lemma_numbers_stay_before(s, n, 0);
        lemma_numbers_stay_before(s, n, 2);
        lemma_numbers_stay_before(s, n, 4);
        lemma_numbers_stay_before(s, n, 8);
        assert(payload.subrange(0, n) =~= payload);
        if s[0] == 0 {
            let count = be16(s, 2) as nat;
            lemma_rectangles_in_bounds(s, 4, count, bytes_per_pixel);
            lemma_rectangles_again(s, 4, count, n, bytes_per_pixel);
        }
    }
}

} // verus!
