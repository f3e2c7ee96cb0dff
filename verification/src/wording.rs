//! What people are told about messages and errors.

use vstd::prelude::*;

use crate::audio::mp3::LameError;
use crate::audio::AudioError;
use crate::auth::api::Timestamp;
use crate::auth::token::{instant_text, timestamp_text, token_text, TokenErrorView};
use crate::auth::{AuthErrorView, FrameErrorView};
use crate::messages::client::{spaced, MessageView};
use crate::messages::layout::{law_encodings_are_read_back, ClientMessage};
use crate::messages::{ErrorView, ParseErrorView};
use crate::outside::{quoted_text, rfc3339_date};
use crate::proxy::SetupErrorView;
use crate::text::{byte_list, decimal, signed_decimal, truth};

verus! {

proof fn lemma_spaced_joined(a: Seq<int>, b: Seq<int>)
    ensures
        spaced(a + b) == spaced(a) + spaced(b),
    decreases b.len(),
{
    if b.len() == 0 {
        assert(a + b =~= a);
        assert(spaced(a) + spaced(b) =~= spaced(a));
    } else {
        lemma_spaced_joined(a, b.drop_last());
        assert((a + b).drop_last() =~= a + b.drop_last());
        assert(spaced(a + b) =~= spaced(a) + spaced(b));
    }
}

/// Encodings are told one after the other, each of them as a number behind a space.
pub proof fn law_encodings_are_told(n: int, a: Seq<int>, b: Seq<int>)
    ensures
        spaced(Seq::empty()) == Seq::<char>::empty(),
        spaced(seq![n]) == seq![' '] + signed_decimal(n),
        spaced(a + b) == spaced(a) + spaced(b),
{
    reveal_strlit(" ");
    assert(" "@ =~= seq![' ']);
    lemma_spaced_joined(a, b);
    assert(seq![n].drop_last() =~= Seq::<int>::empty());
    reveal_with_fuel(spaced, 2);
    assert(spaced(seq![n]) =~= seq![' '] + signed_decimal(n));
}

/// Every message of the client is told with its name and, in brackets, all of its bytes, but for
/// the one that lists encodings, which is told by these. The one that starts an encoder also tells
/// what it asks for.
pub proof fn law_messages_are_told(m: ClientMessage)
    requires
        m.valid(),
    ensures
        m matches ClientMessage::SetEncodings { numbers, .. } ==> m.parsed().text()
            == "SetEncodings("@ + spaced(numbers) + " )"@,
        m matches ClientMessage::StartEncoder { enabled, channels, codec, kbytes_per_sec }
            ==> m.parsed().text() == "ReplitClientAudioStartEncoder("@ + byte_list(m.bytes())
            + ", "@ + truth(enabled != 0) + ", "@ + decimal(channels as nat) + ", "@ + decimal(
            codec as nat,
        ) + ", "@ + decimal(kbytes_per_sec as nat) + ")"@,
        !(m is SetEncodings) && !(m is StartEncoder) ==> m.parsed().text() == m.parsed().name()
            + seq!['('] + byte_list(m.bytes()) + seq![')'],
{
    reveal_strlit("(");
    reveal_strlit(")");
    assert("("@ =~= seq!['(']);
    assert(")"@ =~= seq![')']);
    match m {
        ClientMessage::SetEncodings { padding, numbers } => {
            law_encodings_are_read_back(padding, numbers);
        },
        ClientMessage::StartEncoder { enabled, channels, codec, kbytes_per_sec } => {
            reveal_strlit("ReplitClientAudioStartEncoder(");
            reveal_strlit("ReplitClientAudioStartEncoder");
            assert("ReplitClientAudioStartEncoder("@ =~= "ReplitClientAudioStartEncoder"@ + "("@);
        },
        _ => {},
    }
}

/// What the messages of the client are called.
pub proof fn law_message_names(payload: Seq<u8>)
    ensures
        MessageView::SetPixelFormat(payload).name() == "SetPixelFormat"@,
        MessageView::FramebufferUpdateRequest(payload).name() == "FramebufferUpdateRequest"@,
        MessageView::KeyEvent(payload).name() == "KeyEvent"@,
        MessageView::PointerEvent(payload).name() == "PointerEvent"@,
        MessageView::ClientCutText(payload).name() == "ClientCutText"@,
        MessageView::EnableContinuousUpdates(payload).name() == "EnableContinuousUpdates"@,
        MessageView::ClientFence(payload).name() == "ClientFence"@,
        MessageView::SetDesktopSize(payload).name() == "SetDesktopSize"@,
        MessageView::QemuClientMessage(payload).name() == "QemuClientMessage"@,
        MessageView::ReplitClientAudioFrameRequest(payload).name()
            == "ReplitClientAudioFrameRequest"@,
        MessageView::ReplitClientAudioStartContinuousUpdates(payload).name()
            == "ReplitClientAudioStartContinuousUpdates"@,
{
}

/// What is told about a message that cannot be parsed ends with, or holds, the number that is wrong
/// with it, and where only its bytes can help, these.
pub proof fn law_parse_errors_are_told(n: nat, id: u8, encoding: i32, data: Seq<u8>)
    ensures
        ParseErrorView::MessageTooLong(n as int).text()
            == "message size is larger than the allowed limit: "@ + decimal(n),
        ParseErrorView::StartEncoderLength(n as int).text()
            == "unexpected StartEncoder length: got "@ + decimal(n) + ", expected 6"@,
        ParseErrorView::FrameRequestLength(n as int).text()
            == "unexpected FrameRequest length: got "@ + decimal(n) + ", expected 0"@,
        ParseErrorView::ContinuousUpdatesLength(n as int).text()
            == "unexpected EnableContinuousUpdates length: got "@ + decimal(n) + ", expected 0"@,
        ParseErrorView::ReplitSubmessage(id, data).text()
            == "unsupported Replit Client submessage id: "@ + decimal(id as nat) + " "@ + byte_list(
            data,
        ),
        ParseErrorView::QemuSubmessage(id, data).text()
            == "unsupported QEMU Client submessage id: "@ + decimal(id as nat) + " "@ + byte_list(
            data,
        ),
        ParseErrorView::ClientMessage(id, data).text() == "unsupported client message id: "@
            + decimal(id as nat) + " "@ + byte_list(data),
        ParseErrorView::ServerMessage(id).text() == "unsupported server message id: "@ + decimal(
            id as nat,
        ),
        ParseErrorView::Encoding(encoding).text() == "unsupported encoding type: "@
            + signed_decimal(encoding as int),
        ParseErrorView::TightFilter(id).text() == "unsupported Tight filter: "@ + decimal(
            id as nat,
        ),
        ParseErrorView::CursorType(id).text() == "unsupported VMWare Cursor type: "@ + decimal(
            id as nat,
        ),
        ErrorView::Incomplete.text() == "stream ended early"@,
        ErrorView::Other(ParseErrorView::ServerMessage(id)).text() == ParseErrorView::ServerMessage(
            id,
        ).text(),
{
}

/// What is told about a point in time: the seconds and the nanoseconds as they stand in a token; or
/// the date that they make up, where there is one.
pub proof fn law_times_are_told(t: Timestamp, seconds: int, nanos: int)
    requires
        0 <= seconds <= u64::MAX,
        0 <= nanos < 1_000_000_000,
    ensures
        timestamp_text(Some(t)) == "Some(Timestamp { seconds: "@ + signed_decimal(t.seconds as int)
            + ", nanos: "@ + signed_decimal(t.nanos as int) + " })"@,
        timestamp_text(None) == "None"@,
        ({
            let date = rfc3339_date(seconds as i64, nanos as u32);
            let told = instant_text(seconds * 1_000_000_000 + nanos);
            &&& seconds <= i64::MAX ==> (date matches Some(d) ==> told == d)
            &&& seconds > i64::MAX || date is None ==> told == "a time out of range"@
        }),
{
    let at = seconds * 1_000_000_000 + nanos;
    assert(at / 1_000_000_000 == seconds);
    assert(at % 1_000_000_000 == nanos);
}

/// What is told about a token that is not accepted: the time, the repl or the key that it is about.
pub proof fn law_token_errors_are_told(
    n: nat,
    t: Timestamp,
    iat: Option<Timestamp>,
    exp: Option<Timestamp>,
    at: int,
    id: Seq<char>,
    other: Seq<char>,
    shown: Seq<char>,
)
    ensures
        TokenErrorView::PartCount(n as int).text(shown) == "token has wrong number of parts: "@
            + decimal(n),
        TokenErrorView::FooterText(id).text(shown) == id,
        TokenErrorView::UnknownKey(id).text(shown) == "could not find "@ + id + " in pubkeys"@,
        TokenErrorView::Unverified(id).text(shown) == "failed to verify PASETO: "@ + id,
        TokenErrorView::IssueOverflow(t).text(shown) == "overflow decoding iat: "@ + timestamp_text(
            Some(t),
        ),
        TokenErrorView::ExpiryOverflow(t).text(shown) == "overflow decoding exp: "@
            + timestamp_text(Some(t)),
        TokenErrorView::FallbackOverflow(at).text(shown) == "overflow providing fallback iat: "@
            + shown,
        TokenErrorView::NotYetIssued(at).text(shown) == "token issued in the past: "@
            + instant_text(at),
        TokenErrorView::Expired(at).text(shown) == "token expired: "@ + instant_text(at),
        (TokenErrorView::NoReplid { iat, exp, cluster: id }).text(shown)
            == "token does not contain a replid: "@ + token_text(iat, exp, id),
        token_text(iat, exp, id) == "ReplToken { iat: "@ + timestamp_text(iat) + ", exp: "@
            + timestamp_text(exp) + ", cluster: "@ + quoted_text(id) + ", metadata: None }"@,
        TokenErrorView::OtherRepl(id, other).text(shown) == "token not issued for replid "@
            + quoted_text(id) + ": "@ + quoted_text(other),
{
}

/// What is told about a failed connection is followed by the reason for it where the reasons are
/// told, and by nothing where they are not. A message of another kind is described; bytes are
/// listed.
pub proof fn law_frame_errors_are_told(
    bad: Seq<char>,
    missing: Seq<char>,
    reason: Seq<char>,
    payload: Seq<u8>,
)
    ensures
        FrameErrorView::Failed(reason).text(bad, missing) == bad,
        FrameErrorView::Failed(reason).chain(bad, missing) == bad + seq![':', ' '] + reason,
        FrameErrorView::Missing.text(bad, missing) == missing,
        FrameErrorView::Missing.chain(bad, missing) == missing,
        FrameErrorView::Unexpected(reason).text(bad, missing) == "unexpected message "@ + reason,
        FrameErrorView::Unexpected(reason).chain(bad, missing) == "unexpected message "@ + reason,
        FrameErrorView::Mismatch(payload).text(bad, missing) == "mismatched payload "@ + byte_list(
            payload,
        ),
        FrameErrorView::Mismatch(payload).chain(bad, missing) == "mismatched payload "@ + byte_list(
            payload,
        ),
{
    reveal_strlit(": ");
    assert(": "@ =~= seq![':', ' ']);
}

/// Where the reasons for a failed authentication are told, they follow what is told without them,
/// behind a colon and a space.
pub proof fn law_reasons_follow(e: AuthErrorView, shown: Seq<char>)
    ensures
        e.text().is_prefix_of(e.chain(shown)),
        e matches AuthErrorView::Token(t) ==> e.chain(shown) == e.text() + seq![':', ' '] + t.text(
            shown,
        ),
        e matches AuthErrorView::ServerHandshake(data) ==> e.chain(shown) == e.text() + seq![
            ':',
            ' ',
        ] + ("mismatched payload "@ + byte_list(data)),
        e matches AuthErrorView::Handshake(_, f) ==> e.chain(shown) == e.text() + seq![':', ' ']
            + f.chain("bad client ProtocolVersion handshake"@, "missing client message"@),
{
    reveal_strlit(": ");
    assert(": "@ =~= seq![':', ' ']);
    assert(e.chain(shown).subrange(0, e.text().len() as int) =~= e.text());
}

/// What is told about data of the server or the client that ends the handshakes lists that data.
pub proof fn law_auth_errors_are_told(data: Seq<u8>, n: nat, t: u8, reason: Seq<char>)
    ensures
        AuthErrorView::ServerVersion(data).text() == "unexpected server handshake: "@ + byte_list(
            data,
        ),
        AuthErrorView::SecurityTypeLength(n as int).text()
            == "unexpected security-type length. got "@ + decimal(n) + ", expected 1"@,
        AuthErrorView::UnsupportedSecurityType(t).text() == "unsupported security type "@ + decimal(
            t as nat,
        ),
        AuthErrorView::CredentialsText(reason).text() == reason,
        AuthErrorView::SecurityTypes(data).text() == "invalid SecurityType payload "@ + byte_list(
            data,
        ),
        AuthErrorView::Nonce(data).text() == "invalid VncAuth nonce: "@ + byte_list(data),
        AuthErrorView::NoSupportedType(data).text() == "no supported SecurityTypes found: "@
            + byte_list(data),
        AuthErrorView::Refused(data).text() == "authentication failure: "@ + byte_list(data),
{
}

/// What is told about audio and about the setup names the number or the reason that is wrong.
pub proof fn law_other_errors_are_told(
    codec: u16,
    channels: u8,
    n: usize,
    num: i32,
    reason: Seq<char>,
)
    ensures
        AudioError::UnsupportedCodec(codec).text() == "unsupported codec: "@ + decimal(
            codec as nat,
        ),
        AudioError::InvalidChannels(channels).text() == "invalid channels: "@ + decimal(
            channels as nat,
        ),
        AudioError::PayloadTooLong(n).text() == "payload exceeds maximum size: "@ + decimal(
            n as nat,
        ),
        LameError::Unknown(num).text() == "lame: unknown error: "@ + signed_decimal(num as int),
        SetupErrorView::PubkeysFormat(reason).text() == reason,
        SetupErrorView::PubkeyEncoding(reason).text() == reason,
        SetupErrorView::Incomplete.text() == "--replid and --pubkeys must be passed together"@,
{
}

} // verus!
