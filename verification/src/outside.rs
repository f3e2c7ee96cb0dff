//! Calls into other crates and into parts of std that have no specification of their own.
//!
//! Every function here hands its arguments to the function that its comment names and hands the
//! result back. What it promises of that result is not proved.

use vstd::prelude::*;
use vstd::utf8::{decode_utf8, encode_utf8, valid_utf8};

use crate::auth::token::UnixTime;
use crate::auth::wire::varint;
use crate::data::dot_parts;

verus! {

/// A growable buffer of bytes that can be consumed from the front.
#[verifier::external_type_specification]
#[verifier::external_body]
pub struct ExBytesMut(bytes::BytesMut);

/// The bytes that a buffer holds.
pub uninterp spec fn buffered(buffer: bytes::BytesMut) -> Seq<u8>;

/// `bytes::BytesMut::with_capacity`: a buffer without any bytes, with room for `capacity` of them.
/// It panics where no allocation can be that large.
#[verifier::external_body]
pub(crate) fn buffer_with_capacity(capacity: usize) -> (buffer: bytes::BytesMut)
    requires
        capacity <= isize::MAX,
    ensures
        buffered(buffer) == Seq::<u8>::empty(),
{
    bytes::BytesMut::with_capacity(capacity)
}

/// `bytes::BytesMut::extend_from_slice`: `data` follows what the buffer held before. The buffer
/// grows as needed; it panics where the allocation would have to be larger than any can be. Until
/// the buffer is moved, bytes that it has advanced over count for that, too.
#[verifier::external_body]
pub(crate) fn buffer_append(buffer: &mut bytes::BytesMut, data: &[u8])
    requires
        buffered(*old(buffer)).len() + data@.len() <= isize::MAX,
    ensures
        buffered(*final(buffer)) == buffered(*old(buffer)) + data@,
{
    buffer.extend_from_slice(data);
}

/// `bytes::Buf::advance` of a `BytesMut`: the first `n` bytes are gone, the others stay. It panics
/// if there are fewer than `n`.
#[verifier::external_body]
pub(crate) fn buffer_advance(buffer: &mut bytes::BytesMut, n: usize)
    requires
        n <= buffered(*old(buffer)).len(),
    ensures
        buffered(*final(buffer)) == buffered(*old(buffer)).subrange(
            n as int,
            buffered(*old(buffer)).len() as int,
        ),
{
    bytes::Buf::advance(buffer, n);
}

/// `Deref` of `bytes::BytesMut`: the bytes that the buffer holds.
#[verifier::external_body]
pub(crate) fn buffer_bytes(buffer: &bytes::BytesMut) -> (data: &[u8])
    ensures
        data@ == buffered(*buffer),
{
    &buffer[..]
}

/// What the Data Encryption Standard makes of a block of 8 bytes under a key of 8 bytes.
pub uninterp spec fn des_encrypted(key: Seq<u8>, block: Seq<u8>) -> Seq<u8>;

/// `encrypt_block` of a `des::Des` that was made with `des::Des::new`. Both take exactly 8 bytes
/// and panic at any other length; the encrypted block takes the place of the plain one, so it is 8
/// bytes long, too.
#[verifier::external_body]
pub(crate) fn des_encrypt_block(key: &[u8], block: &[u8]) -> (encrypted: Vec<u8>)
    requires
        key@.len() == 8,
        block@.len() == 8,
    ensures
        encrypted@ == des_encrypted(key@, block@),
        encrypted@.len() == 8,
{
    let des = <des::Des as cipher::NewBlockCipher>::new(
        cipher::block::Key::<des::Des>::from_slice(key),
    );
    let mut block = cipher::block::Block::<des::Des>::clone_from_slice(block);
    cipher::BlockCipher::encrypt_block(&des, &mut block);
    block.to_vec()
}

/// What to tell people about bytes that are not UTF-8.
pub uninterp spec fn utf8_error(bytes: Seq<u8>) -> Seq<char>;

/// `std::str::from_utf8`: the text that the bytes encode, if they are UTF-8; otherwise the text of
/// the error.
#[verifier::external_body]
pub(crate) fn text_from_utf8(bytes: &[u8]) -> (text: Result<String, String>)
    ensures
        text is Ok <==> valid_utf8(bytes@),
        text matches Ok(s) ==> s@ == decode_utf8(bytes@),
        text matches Err(e) ==> e@ == utf8_error(bytes@),
{
    match std::str::from_utf8(bytes) {
        Ok(text) => Ok(String::from(text)),
        Err(e) => Err(e.to_string()),
    }
}

/// `prost::encoding::decode_varint` of a slice: the number at its start, and what follows it. It
/// fails where [`varint`] has none.
#[verifier::external_body]
pub(crate) fn decode_varint(bytes: &[u8]) -> (decoded: Option<(u64, &[u8])>)
    ensures
        match decoded {
            Some((v, rest)) => exists|n: int|
                #![trigger bytes@.skip(n)]
                varint(bytes@) == Some((v as int, n)) && rest@ == bytes@.skip(n),
            None => varint(bytes@) is None,
        },
{
    let mut rest = bytes;
    match prost::encoding::decode_varint(&mut rest) {
        Ok(v) => Some((v, rest)),
        Err(_) => None,
    }
}

/// What follows a value of the given form at the start of `s`: 8 bytes for form 1, 4 bytes for
/// form 5. Form 4 is the end of a group, which does not stand alone.
pub open spec fn field_skipped(form: int, s: Seq<u8>) -> Option<Seq<u8>> {
    let n: int = if form == 1 {
        8
    } else {
        4
    };
    if form == 4 || s.len() < n {
        None
    } else {
        Some(s.skip(n))
    }
}

/// What follows the group with the given tag at the start of `s`, if it is well-formed.
pub uninterp spec fn group_skipped(tag: u32, s: Seq<u8>) -> Option<Seq<u8>>;

/// `prost::encoding::skip_field` of a slice, for the forms that stand for 8 bytes, for a group, for
/// the end of a group and for 4 bytes. It leaves what follows the field. A group holds fields up to
/// its end, groups among them, up to a depth that the function fixes.
#[verifier::external_body]
pub(crate) fn skip_field(form: u64, tag: u32, bytes: &[u8]) -> (rest: Option<&[u8]>)
    requires
        form == 1 || form == 3 || form == 4 || form == 5,
    ensures
        form != 3 ==> slice_view(rest) == field_skipped(form as int, bytes@),
        form == 3 ==> slice_view(rest) == group_skipped(tag, bytes@),
        rest matches Some(r) ==> r@.len() <= bytes@.len(),
{
    let mut rest = bytes;
    let form = std::convert::TryFrom::try_from(form).ok()?;
    let context = prost::encoding::DecodeContext::default();
    match prost::encoding::skip_field(form, tag, &mut rest, context) {
        Ok(()) => Some(rest),
        Err(_) => None,
    }
}

/// The bytes that a text stands for in base64, with the standard alphabet and with padding, or what
/// to tell people about the text.
pub uninterp spec fn base64_decoded(text: Seq<u8>) -> Result<Seq<u8>, Seq<char>>;

/// `base64::decode`: the bytes that the text stands for, or the text of the error. It computes
/// lengths that overflow only for a text longer than any slice can be.
#[verifier::external_body]
pub(crate) fn base64_decode(text: &[u8]) -> (bytes: Result<Vec<u8>, String>)
    ensures
        match bytes {
            Ok(b) => base64_decoded(text@) == Ok::<Seq<u8>, Seq<char>>(b@),
            Err(e) => base64_decoded(text@) == Err::<Seq<u8>, Seq<char>>(e@),
        },
{
    match base64::decode(text) {
        Ok(bytes) => Ok(bytes),
        Err(e) => Err(e.to_string()),
    }
}

/// The bytes that a text stands for in base64, with the alphabet for URLs and without padding.
pub uninterp spec fn base64_url_decoded(text: Seq<u8>) -> Option<Seq<u8>>;

/// `base64::decode_config` with `base64::URL_SAFE_NO_PAD`: the bytes that the text stands for. It
/// computes lengths that overflow only for a text longer than any slice can be.
#[verifier::external_body]
pub(crate) fn base64_url_decode(text: &[u8]) -> (bytes: Option<Vec<u8>>)
    ensures
        vec_view(bytes) == base64_url_decoded(text@),
{
    base64::decode_config(text, base64::URL_SAFE_NO_PAD).ok()
}

/// Bytes in base64, with the alphabet for URLs and without padding.
pub uninterp spec fn base64_url_encoded(bytes: Seq<u8>) -> Seq<char>;

/// `base64::encode_config` with `base64::URL_SAFE_NO_PAD`: the bytes in base64. It needs memory for
/// four thirds of their number.
#[verifier::external_body]
pub(crate) fn base64_url_encode(bytes: &[u8]) -> (text: String)
    ensures
        text@ == base64_url_encoded(bytes@),
{
    base64::encode_config(bytes, base64::URL_SAFE_NO_PAD)
}

/// The message of a signed PASETO token of version 2, if the token has the given footer and its
/// signature was made with the private half of the given key; otherwise what to tell people.
pub uninterp spec fn paseto_verified(
    token: Seq<char>,
    footer: Seq<char>,
    public_key: Seq<u8>,
) -> Result<Seq<char>, Seq<char>>;

/// The number of bytes at the end of the third part of a token that are its signature.
pub const SIGNATURE: usize = 64;

/// Whether a token starts as a signed one of version 2 does, and has the given footer as its fourth
/// part.
pub open spec fn framed(token: Seq<char>, footer: Seq<char>) -> bool {
    let parts = dot_parts(encode_utf8(token));
    &&& parts.len() >= 4
    &&& parts[0] == encode_utf8("v2"@)
    &&& parts[1] == encode_utf8("public"@)
    &&& parts[3] == encode_utf8(base64_url_encoded(encode_utf8(footer)))
}

/// Whether the third part of a token, where it decodes at all, is long enough to hold a signature.
/// This only matters in a token that is framed by the right parts.
pub open spec fn holds_signature(token: Seq<char>, footer: Seq<char>) -> bool {
    framed(token, footer) ==> (base64_url_decoded(
        dot_parts(encode_utf8(token))[2],
    ) matches Some(signed) ==> signed.len() >= SIGNATURE)
}

/// `paseto::v2::verify_paseto`: the message of a token, if the token is what the footer and the key
/// say; otherwise the text of the error. It looks at the other parts first. Only then it takes the
/// signature from the end of the third part, and panics where that is too short for one. It encodes
/// the footer to compare it, so it needs memory
/// for four thirds of its length.
#[verifier::external_body]
pub(crate) fn verify_paseto(token: &str, footer: &str, public_key: &[u8]) -> (message: Result<
    String,
    String,
>)
    requires
        holds_signature(token@, footer@),
    ensures
        match message {
            Ok(m) => paseto_verified(token@, footer@, public_key@) == Ok::<Seq<char>, Seq<char>>(
                m@,
            ),
            Err(e) => paseto_verified(token@, footer@, public_key@) == Err::<Seq<char>, Seq<char>>(
                e@,
            ),
        },
{
    match paseto::v2::verify_paseto(token, Some(footer), public_key) {
        Ok(message) => Ok(message),
        Err(e) => Err(e.to_string()),
    }
}

/// A point in time, by the seconds since the Unix epoch and the nanoseconds behind them, as RFC
/// 3339 writes it in UTC. `None` if it is out of the range of dates.
pub uninterp spec fn rfc3339_date(seconds: i64, nanos: u32) -> Option<Seq<char>>;

/// `to_rfc3339` of the `chrono::DateTime` that `chrono::DateTime::from_timestamp` gives, if it
/// gives one.
#[verifier::external_body]
pub(crate) fn format_date(seconds: i64, nanos: u32) -> (date: Option<String>)
    ensures
        text_view(date) == rfc3339_date(seconds, nanos),
{
    match chrono::DateTime::<chrono::offset::Utc>::from_timestamp(seconds, nanos) {
        Some(date) => Some(date.to_rfc3339()),
        None => None,
    }
}

/// A text in double quotes, with escapes.
pub uninterp spec fn quoted_text(text: Seq<char>) -> Seq<char>;

/// `std::fmt::Debug` of a `str`: the text in double quotes, with escapes.
#[verifier::external_body]
pub(crate) fn quote(text: &str) -> (quoted: String)
    ensures
        quoted@ == quoted_text(text@),
{
    format!("{:?}", text)
}

/// `std::time::SystemTime::now`: the seconds since the Unix epoch and the nanoseconds behind them,
/// or `None` if the clock stands before the epoch. Nothing is known of what the clock says.
#[verifier::external_body]
pub(crate) fn clock() -> (now: Option<UnixTime>) {
    match std::time::SystemTime::now().duration_since(std::time::UNIX_EPOCH) {
        Ok(since) => Some(UnixTime { seconds: since.as_secs(), nanos: since.subsec_nanos() }),
        Err(_) => None,
    }
}

/// `std::fmt::Debug` of the `std::time::SystemTime` that is that many seconds and nanoseconds
/// behind the Unix epoch, or `None` if a clock cannot show it. What it looks like is up to the
/// operating system, so nothing is known of the text.
#[verifier::external_body]
pub(crate) fn clock_text(seconds: u64, nanos: u32) -> (text: Option<String>)
    requires
        nanos < 1_000_000_000,
{
    let since = std::time::Duration::new(seconds, nanos);
    match std::time::UNIX_EPOCH.checked_add(since) {
        Some(time) => Some(format!("{:?}", time)),
        None => None,
    }
}

/// A text that may be missing.
pub open spec fn text_view(text: Option<String>) -> Option<Seq<char>> {
    match text {
        Some(t) => Some(t@),
        None => None,
    }
}

/// Whether all the fields of a message are well-formed that stands in another message.
pub uninterp spec fn nested_accepted(s: Seq<u8>) -> bool;

/// `prost::Message::decode_length_delimited` of a message without any known fields, on the length
/// of the bytes, which `prost::encoding::encode_varint` writes, and the bytes: whether they are
/// fields that can be skipped. Groups have to be less deep in a message that stands in another one.
#[verifier::external_body]
pub(crate) fn accepts_nested(bytes: &[u8]) -> (accepted: bool)
    ensures
        accepted == nested_accepted(bytes@),
{
    let mut length = Vec::new();
    prost::encoding::encode_varint(bytes.len() as u64, &mut length);
    let message = bytes::Buf::chain(&length[..], bytes);
    <() as prost::Message>::decode_length_delimited(message).is_ok()
}

/// The bytes of a slice that may be missing.
pub open spec fn slice_view(bytes: Option<&[u8]>) -> Option<Seq<u8>> {
    match bytes {
        Some(b) => Some(b@),
        None => None,
    }
}

/// The bytes of a vector that may be missing.
pub open spec fn vec_view(bytes: Option<Vec<u8>>) -> Option<Seq<u8>> {
    match bytes {
        Some(b) => Some(b@),
        None => None,
    }
}

/// `rand::Rng::try_fill` of the generator that `rand::thread_rng` gives: `n` bytes, whatever they
/// are, or `None` if it fails. The first use in a thread panics if the operating system has no
/// entropy to start the generator with, which no argument decides.
#[verifier::external_body]
pub(crate) fn random_bytes(n: usize) -> (bytes: Option<Vec<u8>>)
    requires
        n <= isize::MAX,
    ensures
        bytes matches Some(b) ==> b@.len() == n,
{
    let mut bytes = vec![0u8; n];
    match rand::Rng::try_fill(&mut rand::thread_rng(), &mut bytes[..]) {
        Ok(()) => Some(bytes),
        Err(_) => None,
    }
}

/// Whether a path starts at the root.
pub open spec fn rooted(path: Seq<char>) -> bool {
    path.len() > 0 && path[0] == '/'
}

/// Whether `..` stands in a path, from `i` on, as an element of its own.
pub open spec fn parent_at(path: Seq<char>, i: int) -> bool {
    &&& 0 <= i
    &&& i + 2 <= path.len()
    &&& path[i] == '.'
    &&& path[i + 1] == '.'
    &&& i == 0 || path[i - 1] == '/'
    &&& i + 2 == path.len() || path[i + 2] == '/'
}

/// A path without the elements that lead nowhere or back.
pub uninterp spec fn path_cleaned(path: Seq<char>) -> Seq<char>;

/// `path_clean::clean`: the shortest path that lexically means the same. One that starts at the
/// root still does, and does not lead to any parent: where there is nothing before `..` it goes,
/// too.
#[verifier::external_body]
pub(crate) fn clean_path(path: &str) -> (cleaned: String)
    ensures
        cleaned@ == path_cleaned(path@),
        rooted(path@) ==> rooted(cleaned@) && forall|i: int| !#[trigger] parent_at(cleaned@, i),
{
    path_clean::clean(path)
}

/// Pairs as a map. Of two pairs with one key the later one counts.
pub open spec fn pairs_map(pairs: Seq<(String, String)>) -> Map<Seq<char>, Seq<char>>
    decreases pairs.len(),
{
    if pairs.len() == 0 {
        Map::empty()
    } else {
        pairs_map(pairs.drop_last()).insert(pairs.last().0@, pairs.last().1@)
    }
}

/// Whether no key occurs twice.
pub open spec fn distinct_keys(pairs: Seq<(String, String)>) -> bool {
    forall|i: int, j: int|
        0 <= i < j < pairs.len() ==> (#[trigger] pairs[i]).0@ != (#[trigger] pairs[j]).0@
}

/// The JSON object that a text holds, if it is one that maps strings to strings; otherwise what to
/// tell people.
pub uninterp spec fn json_texts(text: Seq<char>) -> Result<Map<Seq<char>, Seq<char>>, Seq<char>>;

/// `serde_json::from_str` into a map from strings to strings: the pairs of a JSON object, each key
/// once, or the text of the error.
#[verifier::external_body]
pub(crate) fn json_pairs(text: &str) -> (pairs: Result<Vec<(String, String)>, String>)
    ensures
        match pairs {
            Ok(p) => json_texts(text@) == Ok::<Map<Seq<char>, Seq<char>>, Seq<char>>(
                pairs_map(p@),
            ) && distinct_keys(p@),
            Err(e) => json_texts(text@) == Err::<Map<Seq<char>, Seq<char>>, Seq<char>>(e@),
        },
{
    match serde_json::from_str::<std::collections::BTreeMap<String, String>>(text) {
        Ok(map) => Ok(map.into_iter().collect()),
        Err(e) => Err(e.to_string()),
    }
}

} // verus!
