//! Replit tokens: PASETO tokens that are signed with one of a set of known keys and name the repl
//! that they were issued for.

use vstd::prelude::*;
use vstd::string::StringExecFns;
use vstd::utf8::{decode_utf8, encode_utf8, valid_utf8};

use super::api::{decode_key_id, key_id, repl_token, Metadata, MetadataView};
use super::api::{ReplToken, ReplTokenView, Timestamp};
use crate::data::{byte_views, dot_parts, same_bytes, same_text, split_dots};
use crate::outside::{base64_decode, base64_decoded, base64_url_decode, base64_url_decoded, clock};
use crate::outside::{holds_signature, paseto_verified, text_from_utf8, utf8_error, verify_paseto};
use crate::outside::SIGNATURE;
use crate::outside::{base64_url_encode, clock_text, format_date, quote, quoted_text, rfc3339_date};
use crate::text::{decimal, push_decimal, push_signed_decimal, signed_decimal};

verus! {

/// The number of nanoseconds in a second.
pub const NANOS_PER_SECOND: u128 = 1_000_000_000;

/// How long a token is good for that does not say when it expires, in seconds.
pub const DEFAULT_LIFETIME: u128 = 3600;

/// The last second that a clock can show.
pub const LAST_SECOND: u128 = 0x7fff_ffff_ffff_ffff;

/// Public keys and the identifiers that tokens know them by.
pub struct Pubkeys {
    pub entries: Vec<(String, Vec<u8>)>,
}

/// The keys by their identifiers. Of two keys with one identifier the later one counts.
pub open spec fn keys_by_id(entries: Seq<(String, Vec<u8>)>) -> Map<Seq<char>, Seq<u8>>
    decreases entries.len(),
{
    if entries.len() == 0 {
        Map::empty()
    } else {
        keys_by_id(entries.drop_last()).insert(entries.last().0@, entries.last().1@)
    }
}

impl View for Pubkeys {
    type V = Map<Seq<char>, Seq<u8>>;

    open spec fn view(&self) -> Map<Seq<char>, Seq<u8>> {
        keys_by_id(self.entries@)
    }
}

impl Pubkeys {
    /// No keys.
    pub fn new() -> (keys: Pubkeys)
        ensures
            keys@ == Map::<Seq<char>, Seq<u8>>::empty(),
    {
        Pubkeys { entries: Vec::new() }
    }

    /// Adds a key. It takes the place of an earlier one with the same identifier.
    pub fn insert(&mut self, id: String, key: Vec<u8>)
        ensures
            final(self)@ == old(self)@.insert(id@, key@),
    {
        self.entries.push((id, key));
        assert(self.entries@.drop_last() =~= old(self).entries@);
    }

    /// The key with the given identifier.
    pub fn get(&self, id: &str) -> (key: Option<&Vec<u8>>)
        ensures
            match key {
                Some(k) => self@.contains_key(id@) && self@[id@] == k@,
                None => !self@.contains_key(id@),
            },
    {
        let mut i: usize = self.entries.len();
        assert(self.entries@.take(i as int) =~= self.entries@);
        while i > 0
            invariant
                i <= self.entries@.len(),
                self@.contains_key(id@) == keys_by_id(self.entries@.take(i as int)).contains_key(
                    id@,
                ),
                self@.contains_key(id@) ==> self@[id@] == keys_by_id(
                    self.entries@.take(i as int),
                )[id@],
            decreases i,
        {
            assert(self.entries@.take(i as int).drop_last() =~= self.entries@.take(i - 1));
            i = i - 1;
            if same_text(self.entries[i].0.as_str(), id) {
                return Some(&self.entries[i].1);
            }
        }
        None
    }
}

/// What a clock shows: seconds since the Unix epoch, and nanoseconds behind them.
#[derive(Clone, Copy, Debug, PartialEq, Eq, Structural)]
pub struct UnixTime {
    pub seconds: u64,
    pub nanos: u32,
}

/// Why a token is not accepted.
#[derive(Debug)]
pub enum TokenError {
    /// A token has four parts.
    PartCount(usize),
    /// The footer is not in base64 for URLs.
    FooterEncoding,
    /// The footer is not in base64.
    FooterBase64,
    /// The footer does not hold a message that names a key.
    FooterMessage,
    /// The footer is not a text, for that reason.
    FooterText(String),
    /// The key that the footer names is not known.
    UnknownKey(String),
    /// All parts are there, but there is no room for a signature.
    SignatureMissing,
    /// The token does not hold what was signed with that key, for that reason.
    Unverified(String),
    /// The message is not in base64.
    MessageBase64,
    /// The message is not a token.
    MessageFormat,
    /// The time of issue is out of range.
    IssueOverflow(Timestamp),
    /// The time of expiration is out of range.
    ExpiryOverflow(Timestamp),
    /// The time of expiration that follows from the time of issue is out of range. The time of
    /// issue is that many nanoseconds after the epoch.
    FallbackOverflow(u128),
    /// The token will not be issued before that many nanoseconds after the epoch.
    NotYetIssued(u128),
    /// The token expired that many nanoseconds after the epoch.
    Expired(u128),
    /// The token, whose other fields these are, does not name a repl.
    NoReplid { iat: Option<Timestamp>, exp: Option<Timestamp>, cluster: String },
    /// The token was issued for the first of these repls, not for the second one.
    OtherRepl(String, String),
}

/// The mathematical counterpart of [`TokenError`].
pub enum TokenErrorView {
    PartCount(int),
    FooterEncoding,
    FooterBase64,
    FooterMessage,
    FooterText(Seq<char>),
    UnknownKey(Seq<char>),
    SignatureMissing,
    Unverified(Seq<char>),
    MessageBase64,
    MessageFormat,
    IssueOverflow(Timestamp),
    ExpiryOverflow(Timestamp),
    FallbackOverflow(int),
    NotYetIssued(int),
    Expired(int),
    NoReplid { iat: Option<Timestamp>, exp: Option<Timestamp>, cluster: Seq<char> },
    OtherRepl(Seq<char>, Seq<char>),
}

impl View for TokenError {
    type V = TokenErrorView;

    open spec fn view(&self) -> TokenErrorView {
        match self {
            TokenError::PartCount(n) => TokenErrorView::PartCount(*n as int),
            TokenError::FooterEncoding => TokenErrorView::FooterEncoding,
            TokenError::FooterBase64 => TokenErrorView::FooterBase64,
            TokenError::FooterMessage => TokenErrorView::FooterMessage,
            TokenError::FooterText(reason) => TokenErrorView::FooterText(reason@),
            TokenError::UnknownKey(id) => TokenErrorView::UnknownKey(id@),
            TokenError::SignatureMissing => TokenErrorView::SignatureMissing,
            TokenError::Unverified(reason) => TokenErrorView::Unverified(reason@),
            TokenError::MessageBase64 => TokenErrorView::MessageBase64,
            TokenError::MessageFormat => TokenErrorView::MessageFormat,
            TokenError::IssueOverflow(t) => TokenErrorView::IssueOverflow(*t),
            TokenError::ExpiryOverflow(t) => TokenErrorView::ExpiryOverflow(*t),
            TokenError::FallbackOverflow(at) => TokenErrorView::FallbackOverflow(*at as int),
            TokenError::NotYetIssued(at) => TokenErrorView::NotYetIssued(*at as int),
            TokenError::Expired(at) => TokenErrorView::Expired(*at as int),
            TokenError::NoReplid { iat, exp, cluster } => TokenErrorView::NoReplid {
                iat: *iat,
                exp: *exp,
                cluster: cluster@,
            },
            TokenError::OtherRepl(id, replid) => TokenErrorView::OtherRepl(id@, replid@),
        }
    }
}

/// A point in time as it stands in a token, if it does.
pub open spec fn timestamp_text(t: Option<Timestamp>) -> Seq<char> {
    match t {
        Some(t) => "Some(Timestamp { seconds: "@ + signed_decimal(t.seconds as int) + ", nanos: "@
            + signed_decimal(t.nanos as int) + " })"@,
        None => "None"@,
    }
}

/// A token that does not name a repl, field by field.
pub open spec fn token_text(
    iat: Option<Timestamp>,
    exp: Option<Timestamp>,
    cluster: Seq<char>,
) -> Seq<char> {
    "ReplToken { iat: "@ + timestamp_text(iat) + ", exp: "@ + timestamp_text(exp) + ", cluster: "@
        + quoted_text(cluster) + ", metadata: None }"@
}

/// A point in time, by the nanoseconds since the epoch.
pub open spec fn instant_text(at: int) -> Seq<char> {
    let seconds = at / NANOS_PER_SECOND as int;
    let nanos = at % NANOS_PER_SECOND as int;
    if seconds > LAST_SECOND {
        "a time out of range"@
    } else {
        match rfc3339_date(seconds as i64, nanos as u32) {
            Some(date) => date,
            None => "a time out of range"@,
        }
    }
}

fn push_timestamp(text: &mut String, t: Option<Timestamp>)
    ensures
        final(text)@ == old(text)@ + timestamp_text(t),
{
    match t {
        Some(t) => {
            text.append("Some(Timestamp { seconds: ");
            push_signed_decimal(text, t.seconds);
            text.append(", nanos: ");
            push_signed_decimal(text, t.nanos as i64);
            text.append(" })");
        },
        None => {
            text.append("None");
        },
    }
    assert(text@ =~= old(text)@ + timestamp_text(t));
}

fn push_instant(text: &mut String, at: u128)
    ensures
        final(text)@ == old(text)@ + instant_text(at as int),
{
    let seconds: u128 = at / NANOS_PER_SECOND;
    let nanos: u128 = at % NANOS_PER_SECOND;
    if seconds > LAST_SECOND {
        text.append("a time out of range");
    } else {
        match format_date(seconds as i64, nanos as u32) {
            Some(date) => {
                text.append(date.as_str());
            },
            None => {
                text.append("a time out of range");
            },
        }
    }
}

impl TokenErrorView {
    /// The text of an error, where `shown` is how the operating system writes down the time that
    /// the error is about. Only the overflow of a time of expiration shows it.
    pub open spec fn text(self, shown: Seq<char>) -> Seq<char> {
        match self {
            TokenErrorView::PartCount(n) => "token has wrong number of parts: "@ + decimal(
                n as nat,
            ),
            TokenErrorView::FooterEncoding => "failed to extract the PASETO footer"@,
            TokenErrorView::FooterBase64 => "failed to base64-decode the PASETO footer"@,
            TokenErrorView::FooterMessage => "failed to parse the PASETO footer"@,
            TokenErrorView::FooterText(reason) => reason,
            TokenErrorView::UnknownKey(id) => "could not find "@ + id + " in pubkeys"@,
            TokenErrorView::SignatureMissing => "failed to verify PASETO: missing signature"@,
            TokenErrorView::Unverified(reason) => "failed to verify PASETO: "@ + reason,
            TokenErrorView::MessageBase64 => "failed to base64-decode the PASETO message"@,
            TokenErrorView::MessageFormat => "failed to parse the PASETO message"@,
            TokenErrorView::IssueOverflow(t) => "overflow decoding iat: "@ + timestamp_text(
                Some(t),
            ),
            TokenErrorView::ExpiryOverflow(t) => "overflow decoding exp: "@ + timestamp_text(
                Some(t),
            ),
            TokenErrorView::FallbackOverflow(_) => "overflow providing fallback iat: "@ + shown,
            TokenErrorView::NotYetIssued(at) => "token issued in the past: "@ + instant_text(at),
            TokenErrorView::Expired(at) => "token expired: "@ + instant_text(at),
            TokenErrorView::NoReplid { iat, exp, cluster } => "token does not contain a replid: "@
                + token_text(iat, exp, cluster),
            TokenErrorView::OtherRepl(id, replid) => "token not issued for replid "@ + quoted_text(
                id,
            ) + ": "@ + quoted_text(replid),
        }
    }
}

impl TokenError {
    /// The text of the error. Only in the overflow of a time of expiration there is something that
    /// is up to the operating system. See [`TokenError::to_string_with`].
    pub fn to_string(&self) -> (text: String)
        ensures
            exists|shown: Seq<char>| text@ == #[trigger] self@.text(shown),
    {
        let mut shown: String = "a time out of range".to_owned();
        if let TokenError::FallbackOverflow(at) = self {
            let seconds: u128 = *at / NANOS_PER_SECOND;
            let nanos: u128 = *at % NANOS_PER_SECOND;
            if seconds <= LAST_SECOND {
                if let Some(text) = clock_text(seconds as u64, nanos as u32) {
                    shown = text;
                }
            }
        }
        self.to_string_with(shown.as_str())
    }

    /// The text of the error, where `shown` is how the operating system writes down the time that
    /// the error is about.
    pub fn to_string_with(&self, shown: &str) -> (text: String)
        ensures
            text@ == self@.text(shown@),
    {
        match self {
            TokenError::PartCount(n) => {
                let mut text = "token has wrong number of parts: ".to_owned();
                push_decimal(&mut text, *n as u64);
                text
            },
            TokenError::FooterEncoding => "failed to extract the PASETO footer".to_owned(),
            TokenError::FooterBase64 => "failed to base64-decode the PASETO footer".to_owned(),
            TokenError::FooterMessage => "failed to parse the PASETO footer".to_owned(),
            TokenError::FooterText(reason) => reason.clone(),
            TokenError::UnknownKey(id) => {
                let mut text = "could not find ".to_owned();
                text.append(id.as_str());
                text.append(" in pubkeys");
                text
            },
            TokenError::SignatureMissing =>
                "failed to verify PASETO: missing signature".to_owned(),
            TokenError::Unverified(reason) => {
                let mut text = "failed to verify PASETO: ".to_owned();
                text.append(reason.as_str());
                text
            },
            TokenError::MessageBase64 => "failed to base64-decode the PASETO message".to_owned(),
            TokenError::MessageFormat => "failed to parse the PASETO message".to_owned(),
            TokenError::IssueOverflow(t) => {
                let mut text = "overflow decoding iat: ".to_owned();
                push_timestamp(&mut text, Some(*t));
                text
            },
            TokenError::ExpiryOverflow(t) => {
                let mut text = "overflow decoding exp: ".to_owned();
                push_timestamp(&mut text, Some(*t));
                text
            },
            TokenError::FallbackOverflow(_) => {
                let mut text = "overflow providing fallback iat: ".to_owned();
                text.append(shown);
                text
            },
            TokenError::NotYetIssued(at) => {
                let mut text = "token issued in the past: ".to_owned();
                push_instant(&mut text, *at);
                text
            },
            TokenError::Expired(at) => {
                let mut text = "token expired: ".to_owned();
                push_instant(&mut text, *at);
                text
            },
            TokenError::NoReplid { iat, exp, cluster } => {
                let mut text = "token does not contain a replid: ".to_owned();
                text.append("ReplToken { iat: ");
                push_timestamp(&mut text, *iat);
                text.append(", exp: ");
                push_timestamp(&mut text, *exp);
                text.append(", cluster: ");
                text.append(quote(cluster.as_str()).as_str());
                text.append(", metadata: None }");
                assert(text@ =~= self@.text(shown@));
                text
            },
            TokenError::OtherRepl(id, replid) => {
                let mut text = "token not issued for replid ".to_owned();
                text.append(quote(id.as_str()).as_str());
                text.append(": ");
                text.append(quote(replid.as_str()).as_str());
                text
            },
        }
    }
}

/// The view of the outcome of a validation.
pub open spec fn verdict_view(verdict: Result<(), TokenError>) -> Result<(), TokenErrorView> {
    match verdict {
        Ok(()) => Ok(()),
        Err(e) => Err(e@),
    }
}

/// The nanoseconds from the epoch to a point in time, or `None` if no clock can show it. Seconds
/// and nanoseconds are taken as unsigned.
pub open spec fn instant(t: Timestamp) -> Option<int> {
    let n = (t.seconds as u64) * NANOS_PER_SECOND + (t.nanos as u32);
    if n / NANOS_PER_SECOND as int > LAST_SECOND {
        None
    } else {
        Some(n)
    }
}

/// The nanoseconds from the epoch to what a clock shows. Anything before the epoch is alike.
pub open spec fn clock_instant(now: Option<UnixTime>) -> int {
    match now {
        Some(t) => t.seconds * NANOS_PER_SECOND + t.nanos,
        None => -1,
    }
}

/// When a token was issued. One that does not say was issued at the epoch.
pub open spec fn issue(token: ReplTokenView) -> Option<int> {
    match token.iat {
        Some(t) => instant(t),
        None => Some(0),
    }
}

/// When a token expires. One that does not say is good for an hour.
pub open spec fn expiry(token: ReplTokenView) -> Option<int> {
    match (token.exp, issue(token)) {
        (Some(t), _) => instant(t),
        (None, Some(issued)) => if issued / NANOS_PER_SECOND as int + DEFAULT_LIFETIME
            > LAST_SECOND {
            None
        } else {
            Some(issued + DEFAULT_LIFETIME * NANOS_PER_SECOND)
        },
        _ => None,
    }
}

/// The repl that a token was issued for.
pub open spec fn token_replid(token: ReplTokenView) -> Option<Seq<char>> {
    match token.metadata {
        Some(MetadataView::Repl { id }) => Some(id),
        Some(MetadataView::Id { id, .. }) => Some(id),
        None => None,
    }
}

/// Whether a token is good for the repl `replid` at the time `now`.
pub open spec fn admitted(token: ReplTokenView, replid: Seq<char>, now: int) -> Result<
    (),
    TokenErrorView,
> {
    match (issue(token), expiry(token), token_replid(token)) {
        (None, _, _) => Err(TokenErrorView::IssueOverflow(token.iat->0)),
        (Some(issued), None, _) => Err(
            match token.exp {
                Some(t) => TokenErrorView::ExpiryOverflow(t),
                None => TokenErrorView::FallbackOverflow(issued),
            },
        ),
        (Some(issued), Some(expires), id) => if now < issued {
            Err(TokenErrorView::NotYetIssued(issued))
        } else if now > expires {
            Err(TokenErrorView::Expired(expires))
        } else {
            match id {
                None => Err(
                    TokenErrorView::NoReplid {
                        iat: token.iat,
                        exp: token.exp,
                        cluster: token.cluster,
                    },
                ),
                Some(id) => if id == replid {
                    Ok(())
                } else {
                    Err(TokenErrorView::OtherRepl(id, replid))
                },
            }
        },
    }
}

/// The message of a token that has the given footer and was signed with the given key.
pub open spec fn signed_message(token: Seq<char>, footer: Seq<char>, key: Seq<u8>) -> Result<
    Seq<char>,
    TokenErrorView,
> {
    if !holds_signature(token, footer) {
        Err(TokenErrorView::SignatureMissing)
    } else {
        match paseto_verified(token, footer, key) {
            Ok(message) => Ok(message),
            Err(reason) => Err(TokenErrorView::Unverified(reason)),
        }
    }
}

/// What a token says, if it was signed with one of the given keys.
pub open spec fn contents(token: Seq<char>, keys: Map<Seq<char>, Seq<u8>>) -> Result<
    ReplTokenView,
    TokenErrorView,
> {
    let parts = dot_parts(encode_utf8(token));
    if parts.len() != 4 {
        Err(TokenErrorView::PartCount(parts.len() as int))
    } else {
        match base64_url_decoded(parts[3]) {
            None => Err(TokenErrorView::FooterEncoding),
            Some(footer) => match base64_decoded(footer) {
                Err(_) => Err(TokenErrorView::FooterBase64),
                Ok(metadata) => match key_id(metadata) {
                    None => Err(TokenErrorView::FooterMessage),
                    Some(id) => if !valid_utf8(footer) {
                        Err(TokenErrorView::FooterText(utf8_error(footer)))
                    } else if !keys.contains_key(id) {
                        Err(TokenErrorView::UnknownKey(id))
                    } else {
                        match signed_message(token, decode_utf8(footer), keys[id]) {
                            Err(e) => Err(e),
                            Ok(message) => message_contents(message),
                        }
                    },
                },
            },
        }
    }
}

/// The token in a signed message.
pub open spec fn message_contents(message: Seq<char>) -> Result<ReplTokenView, TokenErrorView> {
    match base64_decoded(encode_utf8(message)) {
        Err(_) => Err(TokenErrorView::MessageBase64),
        Ok(bytes) => match repl_token(bytes) {
            None => Err(TokenErrorView::MessageFormat),
            Some(token) => Ok(token),
        },
    }
}

/// Whether a token was signed with one of the given keys and is good for the repl `replid` at the
/// time `now`.
pub open spec fn verdict(
    token: Seq<char>,
    replid: Seq<char>,
    keys: Map<Seq<char>, Seq<u8>>,
    now: int,
) -> Result<(), TokenErrorView> {
    match contents(token, keys) {
        Err(e) => Err(e),
        Ok(t) => admitted(t, replid, now),
    }
}

fn read_instant(t: &Timestamp) -> (n: Option<u128>)
    ensures
        match n {
            Some(v) => instant(*t) == Some(v as int) && v <= (LAST_SECOND + 1) * NANOS_PER_SECOND,
            None => instant(*t) is None,
        },
{
    let n: u128 = (t.seconds as u64) as u128 * NANOS_PER_SECOND + (t.nanos as u32) as u128;
    if n / NANOS_PER_SECOND > LAST_SECOND {
        None
    } else {
        Some(n)
    }
}

/// Checks that a token is valid at the given point in time, and that it was issued for the repl
/// `replid`. Without a time, the clock stands before the epoch.
pub fn check_repl_token(token: &ReplToken, replid: &str, now: Option<UnixTime>) -> (r: Result<
    (),
    TokenError,
>)
    ensures
        verdict_view(r) == admitted(token@, replid@, clock_instant(now)),
{
    let issued: u128 = match &token.iat {
        Some(t) => match read_instant(t) {
            Some(n) => n,
            None => {
                return Err(TokenError::IssueOverflow(*t));
            },
        },
        None => 0,
    };
    let expires: u128 = match &token.exp {
        Some(t) => match read_instant(t) {
            Some(n) => n,
            None => {
                return Err(TokenError::ExpiryOverflow(*t));
            },
        },
        None => {
            if issued / NANOS_PER_SECOND + DEFAULT_LIFETIME > LAST_SECOND {
                return Err(TokenError::FallbackOverflow(issued));
            }
            issued + DEFAULT_LIFETIME * NANOS_PER_SECOND
        },
    };
    let now: u128 = match now {
        Some(t) => t.seconds as u128 * NANOS_PER_SECOND + t.nanos as u128,
        None => {
            return Err(TokenError::NotYetIssued(issued));
        },
    };
    if now < issued {
        return Err(TokenError::NotYetIssued(issued));
    }
    if now > expires {
        return Err(TokenError::Expired(expires));
    }
    let id: &String = match &token.metadata {
        Some(Metadata::Repl(repl)) => &repl.id,
        Some(Metadata::Id(id)) => &id.id,
        None => {
            return Err(
                TokenError::NoReplid {
                    iat: token.iat,
                    exp: token.exp,
                    cluster: token.cluster.clone(),
                },
            );
        },
    };
    if !same_text(id.as_str(), replid) {
        return Err(TokenError::OtherRepl(id.clone(), replid.to_owned()));
    }
    Ok(())
}

/// Reads the token in a signed message.
pub fn read_message(message: &str) -> (r: Result<ReplToken, TokenError>)
    ensures
        match r {
            Ok(token) => message_contents(message@) == Ok::<_, TokenErrorView>(token@),
            Err(e) => message_contents(message@) == Err::<ReplTokenView, _>(e@),
        },
{
    match base64_decode(message.as_bytes()) {
        Err(_) => Err(TokenError::MessageBase64),
        Ok(bytes) => match ReplToken::decode(bytes.as_slice()) {
            None => Err(TokenError::MessageFormat),
            Some(token) => Ok(token),
        },
    }
}

/// Reads what a token says, once it is certain that it was signed with one of the given keys.
pub fn read_token(token: &str, pubkeys: &Pubkeys) -> (r: Result<ReplToken, TokenError>)
    ensures
        match r {
            Ok(t) => contents(token@, pubkeys@) == Ok::<_, TokenErrorView>(t@),
            Err(e) => contents(token@, pubkeys@) == Err::<ReplTokenView, _>(e@),
        },
{
    let parts = split_dots(token.as_bytes());
    assert(byte_views(parts@).len() == parts@.len());
    if parts.len() != 4 {
        return Err(TokenError::PartCount(parts.len()));
    }
    assert(dot_parts(encode_utf8(token@))[3] == parts@[3]@);
    assert(dot_parts(encode_utf8(token@))[2] == parts@[2]@);
    let raw_footer = match base64_url_decode(parts[3].as_slice()) {
        None => {
            return Err(TokenError::FooterEncoding);
        },
        Some(footer) => footer,
    };
    let metadata = match base64_decode(raw_footer.as_slice()) {
        Err(_) => {
            return Err(TokenError::FooterBase64);
        },
        Ok(metadata) => metadata,
    };
    let id = match decode_key_id(metadata.as_slice()) {
        None => {
            return Err(TokenError::FooterMessage);
        },
        Some(id) => id,
    };
    let footer = match text_from_utf8(raw_footer.as_slice()) {
        Err(reason) => {
            return Err(TokenError::FooterText(reason));
        },
        Ok(footer) => footer,
    };
    let key = match pubkeys.get(id.as_str()) {
        None => {
            return Err(TokenError::UnknownKey(id));
        },
        Some(key) => key,
    };
    assert(dot_parts(encode_utf8(token@))[0] == parts@[0]@);
    assert(dot_parts(encode_utf8(token@))[1] == parts@[1]@);
    if same_bytes(parts[0].as_slice(), "v2".as_bytes()) && same_bytes(
        parts[1].as_slice(),
        "public".as_bytes(),
    ) && same_bytes(
        parts[3].as_slice(),
        base64_url_encode(footer.as_str().as_bytes()).as_str().as_bytes(),
    ) {
        if let Some(signed) = base64_url_decode(parts[2].as_slice()) {
            if signed.len() < SIGNATURE {
                return Err(TokenError::SignatureMissing);
            }
        }
    }
    match verify_paseto(token, footer.as_str(), key.as_slice()) {
        Err(reason) => Err(TokenError::Unverified(reason)),
        Ok(message) => read_message(message.as_str()),
    }
}

/// Validates a token at the given point in time. It should be:
///
/// - Issued by one of the known public keys.
/// - Be valid at that point in time.
/// - Be issued for the repl where this is being run.
pub fn validate_token_at(
    token: &str,
    replid: &str,
    pubkeys: &Pubkeys,
    now: Option<UnixTime>,
) -> (r: Result<(), TokenError>)
    ensures
        verdict_view(r) == verdict(token@, replid@, pubkeys@, clock_instant(now)),
{
    match read_token(token, pubkeys) {
        Err(e) => Err(e),
        Ok(t) => check_repl_token(&t, replid, now),
    }
}

/// Validates a token at the time that the clock shows. See [`validate_token_at`].
pub fn validate_token(token: &str, replid: &str, pubkeys: &Pubkeys) -> (r: Result<(), TokenError>)
    ensures
        exists|now: Option<UnixTime>|
            verdict_view(r) == verdict(token@, replid@, pubkeys@, #[trigger] clock_instant(now)),
{
    let now = clock();
    let r = validate_token_at(token, replid, pubkeys, now);
    assert(verdict_view(r) == verdict(token@, replid@, pubkeys@, clock_instant(now)));
    r
}

/// A token is good exactly from its time of issue to its time of expiration, and for its own repl
/// only.
pub proof fn law_token_window(token: ReplTokenView, replid: Seq<char>, now: int)
    ensures
        admitted(token, replid, now) is Ok <==> {
            &&& issue(token) matches Some(issued) && issued <= now
            &&& expiry(token) matches Some(expires) && now <= expires
            &&& token_replid(token) == Some(replid)
        },
{
}

/// A token that does not say when it expires is good for an hour after it was issued, not longer.
pub proof fn law_default_lifetime(token: ReplTokenView, replid: Seq<char>, issued: int, now: int)
    requires
        token.exp is None,
        issue(token) == Some(issued),
        token_replid(token) == Some(replid),
        issued / NANOS_PER_SECOND as int + DEFAULT_LIFETIME <= LAST_SECOND,
    ensures
        admitted(token, replid, now) is Ok <==> issued <= now <= issued + DEFAULT_LIFETIME
            * NANOS_PER_SECOND,
{
}

/// Whether the token names the key `id` in its footer, and was signed with it over the message
/// `message`, which holds `t`.
pub open spec fn vouched(
    token: Seq<char>,
    keys: Map<Seq<char>, Seq<u8>>,
    footer: Seq<u8>,
    id: Seq<char>,
    message: Seq<char>,
    t: ReplTokenView,
) -> bool {
    &&& base64_url_decoded(dot_parts(encode_utf8(token))[3]) == Some(footer)
    &&& base64_decoded(footer) matches Ok(metadata) && key_id(metadata) == Some(id)
    &&& keys.contains_key(id)
    &&& paseto_verified(token, decode_utf8(footer), keys[id]) == Ok::<_, Seq<char>>(message)
    &&& message_contents(message) == Ok::<_, TokenErrorView>(t)
}

/// An accepted token has four parts, names one of the known keys and was signed with it, and its
/// message says that it is good for this repl now.
pub proof fn law_accepted_token(
    token: Seq<char>,
    replid: Seq<char>,
    keys: Map<Seq<char>, Seq<u8>>,
    now: int,
)
    requires
        verdict(token, replid, keys, now) is Ok,
    ensures
        dot_parts(encode_utf8(token)).len() == 4,
        exists|footer: Seq<u8>, id: Seq<char>, message: Seq<char>, t: ReplTokenView| #[trigger]
            vouched(token, keys, footer, id, message, t) && admitted(t, replid, now) is Ok,
{
    let footer = base64_url_decoded(dot_parts(encode_utf8(token))[3])->0;
    let metadata = base64_decoded(footer)->Ok_0;
    let id = key_id(metadata)->0;
    let message = paseto_verified(token, decode_utf8(footer), keys[id])->Ok_0;
    let t = contents(token, keys)->Ok_0;
    assert(vouched(token, keys, footer, id, message, t));
}

/// Without any known keys no token is accepted.
pub proof fn law_no_keys_no_tokens(token: Seq<char>, replid: Seq<char>, now: int)
    ensures
        verdict(token, replid, Map::empty(), now) is Err,
{
}

} // verus!
