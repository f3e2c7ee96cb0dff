//! When a token is good, told by what stands in it.

use vstd::prelude::*;
use vstd::utf8::{decode_utf8, encode_utf8, valid_utf8};

use super::api::{key_id, repl_token, MetadataView, ReplTokenView, Timestamp};
use super::token::{admitted, clock_instant, contents, verdict, TokenErrorView, UnixTime};
use crate::data::dot_parts;
use crate::outside::{base64_decoded, base64_url_decoded, base64_url_encoded, paseto_verified};
use crate::outside::utf8_error;

verus! {

/// Whether a point in time is one that a clock can show.
pub open spec fn usual(t: Timestamp) -> bool {
    0 <= t.seconds && nanoseconds(t) < 9_223_372_036_854_775_808_000_000_000
}

/// The nanoseconds from the epoch to a point in time, where the nanoseconds on top of the seconds
/// are taken as unsigned.
pub open spec fn nanoseconds(t: Timestamp) -> int {
    t.seconds * 1_000_000_000 + t.nanos + if t.nanos < 0 {
        4_294_967_296int
    } else {
        0
    }
}

/// When a token was issued: at the epoch if it does not say.
pub open spec fn issued_at(iat: Option<Timestamp>) -> int {
    match iat {
        Some(t) => nanoseconds(t),
        None => 0,
    }
}

/// When a token expires: an hour after it was issued if it does not say.
pub open spec fn expires_at(iat: Option<Timestamp>, exp: Option<Timestamp>) -> int {
    match exp {
        Some(t) => nanoseconds(t),
        None => issued_at(iat) + 3_600_000_000_000,
    }
}

/// A token is good for the repl that it names, from its time of issue to its time of expiration,
/// both included. It does not matter in which of two ways it names the repl, nor what else it says.
/// One that does not name a repl is good for none.
pub proof fn law_tokens_are_good_in_their_time(
    iat: Option<Timestamp>,
    exp: Option<Timestamp>,
    cluster: Seq<char>,
    id: Seq<char>,
    source_repl: Seq<char>,
    replid: Seq<char>,
    now: int,
)
    requires
        iat matches Some(t) ==> usual(t),
        exp matches Some(t) ==> usual(t),
        exp is None ==> expires_at(iat, exp) < 9_223_372_036_854_775_808_000_000_000,
    ensures
        ({
            let issued = issued_at(iat);
            let expires = expires_at(iat, exp);
            let named = ReplTokenView {
                iat,
                exp,
                cluster,
                metadata: Some(MetadataView::Repl { id }),
            };
            let identified = ReplTokenView {
                metadata: Some(MetadataView::Id { id, source_repl }),
                ..named
            };
            let unnamed = ReplTokenView { metadata: None, ..named };
            let out_of_time = if now < issued {
                Some(TokenErrorView::NotYetIssued(issued))
            } else if now > expires {
                Some(TokenErrorView::Expired(expires))
            } else {
                None
            };
            let expected = match out_of_time {
                Some(e) => Err::<(), TokenErrorView>(e),
                None => if id == replid {
                    Ok(())
                } else {
                    Err(TokenErrorView::OtherRepl(id, replid))
                },
            };
            &&& admitted(named, replid, now) == expected
            &&& admitted(identified, replid, now) == expected
            &&& admitted(unnamed, replid, now) == (match out_of_time {
                Some(e) => Err::<(), TokenErrorView>(e),
                None => Err(TokenErrorView::NoReplid { iat, exp, cluster }),
            })
            &&& issued <= now <= expires && id == replid ==> admitted(named, replid, now) is Ok
                && admitted(identified, replid, now) is Ok
        }),
{
    if let Some(t) = iat {
        lemma_unsigned(t);
    }
    if let Some(t) = exp {
        lemma_unsigned(t);
    }
}

proof fn lemma_unsigned(t: Timestamp)
    ensures
        t.seconds >= 0 ==> t.seconds as u64 == t.seconds,
        t.seconds < 0 ==> t.seconds as u64 >= 0x8000_0000_0000_0000u64,
        t.nanos >= 0 ==> t.nanos as u32 == t.nanos,
        t.nanos < 0 ==> t.nanos as u32 == t.nanos + 4_294_967_296,
{
    let seconds = t.seconds;
    let nanos = t.nanos;
    assert(seconds < 0 ==> seconds as u64 >= 0x8000_0000_0000_0000u64) by (bit_vector);
    assert(nanos < 0 ==> nanos as u32 == nanos + 4_294_967_296) by (bit_vector);
}

/// A token whose times are out of range is not good at any time: one before the epoch counts as
/// that, and so does a token without an expiration that is issued in the last hour of all.
pub proof fn law_times_out_of_range(token: ReplTokenView, replid: Seq<char>, now: int)
    ensures
        token.iat matches Some(t) ==> (!usual(t) ==> admitted(token, replid, now) == Err::<(), _>(
            TokenErrorView::IssueOverflow(t),
        )),
        (token.iat matches Some(t) ==> usual(t)) && (token.exp matches Some(t) && !usual(t))
            ==> admitted(token, replid, now) == Err::<(), _>(
            TokenErrorView::ExpiryOverflow(token.exp->0),
        ),
        token.exp is None && (token.iat matches Some(t) && usual(t)) && expires_at(
            token.iat,
            None,
        ) >= 9_223_372_036_854_775_808_000_000_000 ==> admitted(token, replid, now) == Err::<(), _>(
            TokenErrorView::FallbackOverflow(nanoseconds(token.iat->0)),
        ),
{
    if let Some(t) = token.iat {
        lemma_unsigned(t);
    }
    if let Some(t) = token.exp {
        lemma_unsigned(t);
    }
}

/// What a clock shows counts in nanoseconds from the epoch; before the epoch no token has been
/// issued.
pub proof fn law_clocks(t: UnixTime)
    ensures
        clock_instant(Some(t)) == t.seconds * 1_000_000_000 + t.nanos,
        clock_instant(None) < 0,
{
}

/// The footer of a token says which key it was signed with.
pub open spec fn names_key(footer: Seq<u8>, id: Seq<char>) -> bool {
    base64_decoded(footer) matches Ok(metadata) && key_id(metadata) == Some(id)
}

/// A token of four parts, whose footer names a known key with which it was signed over a message
/// that holds `t`, says what `t` says: whether it is accepted depends on nothing else.
pub proof fn law_signed_tokens_count(
    token: Seq<char>,
    parts: Seq<Seq<u8>>,
    footer: Seq<u8>,
    id: Seq<char>,
    keys: Map<Seq<char>, Seq<u8>>,
    signed: Seq<u8>,
    message: Seq<char>,
    bytes: Seq<u8>,
    t: ReplTokenView,
    replid: Seq<char>,
    now: int,
)
    requires
        dot_parts(encode_utf8(token)) == parts,
        parts.len() == 4,
        base64_url_decoded(parts[2]) == Some(signed),
        signed.len() >= 64,
        base64_url_decoded(parts[3]) == Some(footer),
        names_key(footer, id),
        valid_utf8(footer),
        keys.contains_key(id),
        paseto_verified(token, decode_utf8(footer), keys[id]) == Ok::<_, Seq<char>>(message),
        base64_decoded(encode_utf8(message)) == Ok::<_, Seq<char>>(bytes),
        repl_token(bytes) == Some(t),
    ensures
        contents(token, keys) == Ok::<_, TokenErrorView>(t),
        verdict(token, replid, keys, now) == admitted(t, replid, now),
{
}

/// Every other token is refused for the first thing that is wrong with it.
pub proof fn law_other_tokens_are_refused(
    token: Seq<char>,
    parts: Seq<Seq<u8>>,
    footer: Seq<u8>,
    id: Seq<char>,
    keys: Map<Seq<char>, Seq<u8>>,
    replid: Seq<char>,
    now: int,
)
    requires
        dot_parts(encode_utf8(token)) == parts,
    ensures
        ({
            let refused = |e: TokenErrorView|
                verdict(token, replid, keys, now) == Err::<(), _>(e) && contents(token, keys)
                    == Err::<ReplTokenView, _>(e);
            let known = parts.len() == 4 && base64_url_decoded(parts[3]) == Some(footer)
                && names_key(footer, id) && valid_utf8(footer) && keys.contains_key(id);
            let whole = parts[0] == encode_utf8("v2"@) && parts[1] == encode_utf8("public"@)
                && parts[3] == encode_utf8(base64_url_encoded(encode_utf8(decode_utf8(footer))));
            let unsigned = whole && (base64_url_decoded(parts[2]) matches Some(signed)
                && signed.len() < 64);
            let verified = paseto_verified(token, decode_utf8(footer), keys[id]);
            &&& parts.len() != 4 ==> refused(TokenErrorView::PartCount(parts.len() as int))
            &&& parts.len() == 4 && base64_url_decoded(parts[3]) is None ==> refused(
                TokenErrorView::FooterEncoding,
            )
            &&& parts.len() == 4 && base64_url_decoded(parts[3]) == Some(footer) ==> {
                &&& base64_decoded(footer) is Err ==> refused(TokenErrorView::FooterBase64)
                &&& (base64_decoded(footer) matches Ok(metadata) && key_id(metadata) is None)
                    ==> refused(TokenErrorView::FooterMessage)
                &&& names_key(footer, id) && !valid_utf8(footer) ==> refused(
                    TokenErrorView::FooterText(utf8_error(footer)),
                )
                &&& names_key(footer, id) && valid_utf8(footer) && !keys.contains_key(id)
                    ==> refused(TokenErrorView::UnknownKey(id))
            }
            &&& known && unsigned ==> refused(TokenErrorView::SignatureMissing)
            &&& known && !unsigned ==> {
                &&& verified matches Err(reason) ==> refused(TokenErrorView::Unverified(reason))
                &&& verified matches Ok(message) ==> {
                    let decoded = base64_decoded(encode_utf8(message));
                    &&& decoded is Err ==> refused(TokenErrorView::MessageBase64)
                    &&& (decoded matches Ok(bytes) && repl_token(bytes) is None) ==> refused(
                        TokenErrorView::MessageFormat,
                    )
                }
            }
        }),
{
}

} // verus!
