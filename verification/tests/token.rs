//! Tokens, and the messages in them.

use prost::encoding::{encode_key, encode_varint, WireType};
use ring::signature::KeyPair;
use rfbproxy::auth::api::{decode_key_id, Metadata, ReplId, ReplToken, Timestamp};
use rfbproxy::auth::token::{
    check_repl_token, read_message, read_token, validate_token_at, Pubkeys, TokenError, UnixTime,
};
use rfbproxy::auth::wire::{decode_fields, FieldValue};
use rfbproxy::data::split_dots;

fn put_bytes(buf: &mut Vec<u8>, tag: u32, bytes: &[u8]) {
    encode_key(tag, WireType::LengthDelimited, buf);
    encode_varint(bytes.len() as u64, buf);
    buf.extend_from_slice(bytes);
}

fn put_varint(buf: &mut Vec<u8>, tag: u32, value: u64) {
    encode_key(tag, WireType::Varint, buf);
    encode_varint(value, buf);
}

fn timestamp(seconds: i64, nanos: i32) -> Vec<u8> {
    let mut buf = Vec::new();
    prost::encoding::int64::encode(1, &seconds, &mut buf);
    prost::encoding::int32::encode(2, &nanos, &mut buf);
    buf
}

fn named(id: &str) -> Vec<u8> {
    let mut buf = Vec::new();
    put_bytes(&mut buf, 1, id.as_bytes());
    buf
}

fn at(seconds: u64) -> Option<UnixTime> {
    Some(UnixTime { seconds, nanos: 0 })
}

fn token(iat: Option<i64>, exp: Option<i64>, metadata: Option<Metadata>) -> ReplToken {
    ReplToken {
        iat: iat.map(|seconds| Timestamp { seconds, nanos: 0 }),
        exp: exp.map(|seconds| Timestamp { seconds, nanos: 0 }),
        cluster: String::new(),
        metadata,
    }
}

fn id(name: &str) -> Option<Metadata> {
    Some(Metadata::Id(ReplId {
        id: name.to_string(),
        source_repl: String::new(),
    }))
}

struct Issuer {
    keypair: ring::signature::Ed25519KeyPair,
}

impl Issuer {
    fn new() -> Issuer {
        let sys_rand = ring::rand::SystemRandom::new();
        let pkcs8 = ring::signature::Ed25519KeyPair::generate_pkcs8(&sys_rand).unwrap();
        Issuer {
            keypair: ring::signature::Ed25519KeyPair::from_pkcs8(pkcs8.as_ref()).unwrap(),
        }
    }

    fn keys(&self, id: &str) -> Pubkeys {
        let mut keys = Pubkeys::new();
        keys.insert(
            id.to_string(),
            self.keypair.public_key().as_ref().to_vec(),
        );
        keys
    }

    fn sign(&self, message: &str, footer: &str) -> String {
        match paseto::v2::public_paseto(message, Some(footer), &self.keypair) {
            Ok(token) => token,
            Err(err) => panic!("{}", err),
        }
    }
}

#[test]
fn fields_of_all_forms() {
    let mut buf = Vec::new();
    put_varint(&mut buf, 1, 300);
    put_bytes(&mut buf, 2, b"abc");
    encode_key(3, WireType::SixtyFourBit, &mut buf);
    buf.extend_from_slice(&[1; 8]);
    encode_key(4, WireType::ThirtyTwoBit, &mut buf);
    buf.extend_from_slice(&[1; 4]);
    encode_key(5, WireType::StartGroup, &mut buf);
    put_varint(&mut buf, 1, 7);
    encode_key(5, WireType::EndGroup, &mut buf);
    put_varint(&mut buf, 6, u64::MAX);
    let fields = decode_fields(&buf).unwrap();
    assert_eq!(
        fields.iter().map(|f| f.tag).collect::<Vec<_>>(),
        vec![1, 2, 3, 4, 5, 6]
    );
    assert!(matches!(fields[0].value, FieldValue::Varint(300)));
    assert!(matches!(&fields[1].value, FieldValue::Bytes(b) if b == b"abc"));
    assert!(matches!(fields[2].value, FieldValue::Skipped));
    assert!(matches!(fields[3].value, FieldValue::Skipped));
    assert!(matches!(fields[4].value, FieldValue::Skipped));
    assert!(matches!(fields[5].value, FieldValue::Varint(u64::MAX)));
    assert!(decode_fields(&[]).unwrap().is_empty());
}

#[test]
fn malformed_fields() {
    for data in [
        // No value.
        vec![0x08],
        // A number that does not end.
        vec![0x08, 0x80],
        // A number of eleven bytes.
        vec![0x08, 0xff, 0xff, 0xff, 0xff, 0xff, 0xff, 0xff, 0xff, 0xff, 0xff, 0x00],
        // A number of more than 64 bits.
        vec![0x08, 0xff, 0xff, 0xff, 0xff, 0xff, 0xff, 0xff, 0xff, 0xff, 0x02],
        // The tag 0.
        vec![0x00, 0x00],
        // A form that does not exist.
        vec![0x0f],
        // A key of more than 32 bits.
        vec![0x88, 0x80, 0x80, 0x80, 0x10, 0x00],
        // Fewer bytes than announced.
        vec![0x0a, 0x02, 0x00],
        vec![0x09, 0x00],
        vec![0x0d, 0x00],
        // The end of a group that did not begin.
        vec![0x0c],
        // A group that ends as another one.
        vec![0x0b, 0x14],
    ] {
        assert!(decode_fields(&data).is_none());
    }
}

#[test]
fn key_ids() {
    assert_eq!(decode_key_id(&named("key")).unwrap(), "key");
    assert_eq!(decode_key_id(&[]).unwrap(), "");
    // The last one counts.
    let both = [named("a"), named("b")].concat();
    assert_eq!(decode_key_id(&both).unwrap(), "b");
    // Not a text.
    assert!(decode_key_id(&[0x0a, 0x01, 0xff]).is_none());
    assert!(decode_key_id(&[0x08, 0x01]).is_none());
}

#[test]
fn token_messages() {
    let mut buf = Vec::new();
    put_bytes(&mut buf, 1, &timestamp(5, 6));
    put_bytes(&mut buf, 2, &timestamp(-1, -1));
    put_bytes(&mut buf, 4, b"development");
    let mut forked = named("repl");
    put_bytes(&mut forked, 2, b"source");
    put_bytes(&mut buf, 8, &forked);
    let decoded = ReplToken::decode(&buf).unwrap();
    assert_eq!(decoded.cluster, "development");
    assert_eq!(
        decoded.iat,
        Some(Timestamp {
            seconds: 5,
            nanos: 6
        })
    );
    assert_eq!(
        decoded.exp,
        Some(Timestamp {
            seconds: -1,
            nanos: -1
        })
    );
    assert!(matches!(
        &decoded.metadata,
        Some(Metadata::Id(id)) if id.id == "repl" && id.source_repl == "source"
    ));

    let empty = ReplToken::decode(&[]).unwrap();
    assert!(empty.iat.is_none() && empty.exp.is_none() && empty.metadata.is_none());

    // Messages that come in parts are taken together.
    let mut buf = Vec::new();
    let mut seconds = Vec::new();
    put_varint(&mut seconds, 1, 8);
    let mut nanos = Vec::new();
    put_varint(&mut nanos, 2, 9);
    put_bytes(&mut buf, 1, &seconds);
    put_bytes(&mut buf, 1, &nanos);
    put_bytes(&mut buf, 8, &named("other"));
    put_bytes(&mut buf, 7, &named("repl"));
    put_bytes(&mut buf, 7, &[]);
    let decoded = ReplToken::decode(&buf).unwrap();
    assert_eq!(
        decoded.iat,
        Some(Timestamp {
            seconds: 8,
            nanos: 9
        })
    );
    assert!(matches!(&decoded.metadata, Some(Metadata::Repl(repl)) if repl.id == "repl"));

    assert!(ReplToken::decode(&[0x0a, 0x01, 0x08]).is_none());
    assert!(ReplToken::decode(&[0x08, 0x01]).is_none());
    assert!(ReplToken::decode(&[0x38, 0x01]).is_none());
}

#[test]
fn texts_in_tokens_are_texts() {
    let bad_id = [0x0a, 0x01, 0xff];
    let bad_source = [0x12, 0x01, 0xff];
    let decodes = |members: &[(u32, &[u8])]| {
        let mut buf = Vec::new();
        for (tag, bytes) in members {
            put_bytes(&mut buf, *tag, bytes);
        }
        ReplToken::decode(&buf).is_some()
    };
    let good = named("repl");
    assert!(decodes(&[(7, &good), (8, &good)]));
    // One that another one takes the place of is no exception.
    assert!(!decodes(&[(7, &bad_id), (8, &good)]));
    assert!(!decodes(&[(8, &bad_id), (7, &good)]));
    assert!(!decodes(&[(8, &bad_source), (7, &good)]));
    assert!(!decodes(&[(8, &good), (8, &bad_source)]));
    assert!(!decodes(&[(4, &[0xff]), (8, &good)]));
    assert!(!decodes(&[(4, &[0xff]), (4, b"development"), (8, &good)]));
    // The second field of a repl is another one.
    assert!(decodes(&[(7, &bad_source)]));
}

#[test]
fn groups_are_less_deep_in_nested_messages() {
    let groups = |depth: usize| {
        let mut buf = Vec::new();
        for _ in 0..depth {
            encode_key(9, WireType::StartGroup, &mut buf);
        }
        for _ in 0..depth {
            encode_key(9, WireType::EndGroup, &mut buf);
        }
        buf
    };
    let nested = |depth: usize| {
        let mut buf = Vec::new();
        put_bytes(&mut buf, 8, &groups(depth));
        buf
    };
    let deepest = (0..200)
        .rev()
        .find(|depth| ReplToken::decode(&groups(*depth)).is_some())
        .unwrap();
    let deepest_nested = (0..200)
        .rev()
        .find(|depth| ReplToken::decode(&nested(*depth)).is_some())
        .unwrap();
    assert!(deepest_nested > 0);
    assert_eq!(deepest_nested, deepest - 1);
}

#[test]
fn token_window() {
    let window = token(Some(100), Some(200), id("repl"));
    assert!(check_repl_token(&window, "repl", at(100)).is_ok());
    assert!(check_repl_token(&window, "repl", at(200)).is_ok());
    assert!(matches!(
        check_repl_token(&window, "repl", at(99)),
        Err(TokenError::NotYetIssued(100_000_000_000))
    ));
    assert!(matches!(
        check_repl_token(
            &window,
            "repl",
            Some(UnixTime {
                seconds: 200,
                nanos: 1
            })
        ),
        Err(TokenError::Expired(200_000_000_000))
    ));
    assert!(matches!(
        check_repl_token(&window, "repl", None),
        Err(TokenError::NotYetIssued(100_000_000_000))
    ));
    assert!(matches!(
        check_repl_token(&window, "other", at(150)),
        Err(TokenError::OtherRepl(id, replid)) if id == "repl" && replid == "other"
    ));
    assert!(matches!(
        check_repl_token(&token(None, Some(200), None), "repl", at(150)),
        Err(TokenError::NoReplid { iat: None, exp: Some(_), .. })
    ));
}

#[test]
fn tokens_without_expiration_last_an_hour() {
    let hour = token(Some(100), None, id("repl"));
    assert!(check_repl_token(&hour, "repl", at(3700)).is_ok());
    assert!(matches!(
        check_repl_token(&hour, "repl", at(3701)),
        Err(TokenError::Expired(3_700_000_000_000))
    ));
    assert!(check_repl_token(&token(None, None, id("repl")), "repl", at(3600)).is_ok());
    assert!(check_repl_token(&token(None, None, id("repl")), "repl", at(3601)).is_err());
}

#[test]
fn times_out_of_range() {
    assert!(matches!(
        check_repl_token(&token(Some(-1), None, id("repl")), "repl", at(1)),
        Err(TokenError::IssueOverflow(Timestamp { seconds: -1, nanos: 0 }))
    ));
    assert!(matches!(
        check_repl_token(&token(None, Some(i64::MIN), id("repl")), "repl", at(1)),
        Err(TokenError::ExpiryOverflow(Timestamp { seconds: i64::MIN, nanos: 0 }))
    ));
    assert!(matches!(
        check_repl_token(&token(Some(i64::MAX), None, id("repl")), "repl", at(1)),
        Err(TokenError::FallbackOverflow(9_223_372_036_854_775_807_000_000_000))
    ));
    let last = token(Some(i64::MAX - 3600), None, id("repl"));
    assert!(check_repl_token(&last, "repl", at(i64::MAX as u64)).is_ok());
}

#[test]
fn token_errors() {
    let issuer = Issuer::new();
    let keys = issuer.keys("key");
    let mut message = Vec::new();
    put_bytes(&mut message, 8, &named("repl"));
    let message = base64::encode(&message);
    let footer = base64::encode(named("key"));
    let good = issuer.sign(&message, &footer);

    assert!(validate_token_at(&good, "repl", &keys, at(10)).is_ok());
    assert!(matches!(
        validate_token_at(&good, "repl", &keys, at(4000)),
        Err(TokenError::Expired(_))
    ));
    assert!(matches!(
        validate_token_at(&good, "other", &keys, at(10)),
        Err(TokenError::OtherRepl(_, _))
    ));
    assert!(matches!(
        read_token(&good, &keys).unwrap().metadata,
        Some(Metadata::Id(id)) if id.id == "repl"
    ));
    assert!(matches!(
        read_token("this is not a token", &keys),
        Err(TokenError::PartCount(1))
    ));
    assert!(matches!(
        read_token("a.b.c.d.e", &keys),
        Err(TokenError::PartCount(5))
    ));
    assert!(matches!(
        read_token("v2.public.AAAA.!!", &keys),
        Err(TokenError::FooterEncoding)
    ));
    let with_footer = |footer: &[u8]| {
        format!(
            "v2.public.AAAA.{}",
            base64::encode_config(footer, base64::URL_SAFE_NO_PAD)
        )
    };
    assert!(matches!(
        read_token(&with_footer(b"!"), &keys),
        Err(TokenError::FooterBase64)
    ));
    assert!(matches!(
        read_token(&with_footer(base64::encode([0x08]).as_bytes()), &keys),
        Err(TokenError::FooterMessage)
    ));
    // A signature that is cut short.
    assert!(matches!(
        read_token(&with_footer(footer.as_bytes()), &keys),
        Err(TokenError::SignatureMissing)
    ));
    assert!(matches!(
        read_token(&good, &issuer.keys("other")),
        Err(TokenError::UnknownKey(id)) if id == "key"
    ));
    assert!(matches!(
        read_token(&good, &Issuer::new().keys("key")),
        Err(TokenError::Unverified(reason)) if !reason.is_empty()
    ));
    assert!(matches!(
        read_token(&good.replace("v2.", "v1."), &keys),
        Err(TokenError::Unverified(_))
    ));
    assert!(matches!(
        read_token(&issuer.sign("!", &footer), &keys),
        Err(TokenError::MessageBase64)
    ));
    assert!(matches!(
        read_token(&issuer.sign(&base64::encode([0x08]), &footer), &keys),
        Err(TokenError::MessageFormat)
    ));
    assert!(matches!(
        read_message("!"),
        Err(TokenError::MessageBase64)
    ));
    assert!(read_message("").unwrap().metadata.is_none());
}

#[test]
fn token_error_texts() {
    for (err, text) in [
        (TokenError::PartCount(12), "token has wrong number of parts: 12"),
        (
            TokenError::UnknownKey("key".to_string()),
            "could not find key in pubkeys",
        ),
        (
            TokenError::Unverified("because".to_string()),
            "failed to verify PASETO: because",
        ),
        (
            TokenError::IssueOverflow(Timestamp {
                seconds: -1,
                nanos: 7,
            }),
            "overflow decoding iat: Some(Timestamp { seconds: -1, nanos: 7 })",
        ),
        (
            TokenError::ExpiryOverflow(Timestamp {
                seconds: i64::MIN,
                nanos: i32::MIN,
            }),
            "overflow decoding exp: Some(Timestamp { seconds: -9223372036854775808, \
             nanos: -2147483648 })",
        ),
        (
            TokenError::NotYetIssued(253402300799_000_000_000),
            "token issued in the past: 9999-12-31T23:59:59+00:00",
        ),
        (
            TokenError::Expired(0),
            "token expired: 1970-01-01T00:00:00+00:00",
        ),
        (
            TokenError::Expired(1_431_648_000_005_000_000),
            "token expired: 2015-05-15T00:00:00.005+00:00",
        ),
        (
            TokenError::Expired(u128::MAX),
            "token expired: a time out of range",
        ),
        (
            TokenError::Expired(9_223_372_036_854_775_807_000_000_000),
            "token expired: a time out of range",
        ),
        (
            TokenError::OtherRepl("re\"pl".to_string(), "other".to_string()),
            "token not issued for replid \"re\\\"pl\": \"other\"",
        ),
    ] {
        assert_eq!(err.to_string(), text);
    }
}

#[test]
fn tokens_without_a_repl_are_shown() {
    let mut bare = token(Some(-5), None, None);
    bare.cluster = "a \"cluster\"".to_string();
    bare.exp = Some(Timestamp {
        seconds: 10,
        nanos: -7,
    });
    bare.iat = None;
    let err = check_repl_token(&bare, "repl", at(5)).unwrap_err();
    assert_eq!(
        err.to_string(),
        format!("token does not contain a replid: {:?}", bare)
    );
    let err = check_repl_token(&token(Some(1), Some(9), None), "repl", at(5)).unwrap_err();
    assert_eq!(
        err.to_string(),
        "token does not contain a replid: ReplToken { \
         iat: Some(Timestamp { seconds: 1, nanos: 0 }), \
         exp: Some(Timestamp { seconds: 9, nanos: 0 }), cluster: \"\", metadata: None }"
    );
}

#[test]
fn fallbacks_out_of_range_show_the_time() {
    let issued = std::time::UNIX_EPOCH + std::time::Duration::new(i64::MAX as u64, 5);
    let err = TokenError::FallbackOverflow(i64::MAX as u128 * 1_000_000_000 + 5);
    assert_eq!(
        err.to_string(),
        format!("overflow providing fallback iat: {:?}", issued)
    );
    assert_eq!(
        err.to_string_with("then"),
        "overflow providing fallback iat: then"
    );
    assert_eq!(
        TokenError::Expired(0).to_string_with("then"),
        TokenError::Expired(0).to_string()
    );
}

#[test]
fn signatures_are_looked_for_last() {
    let issuer = Issuer::new();
    let keys = issuer.keys("key");
    let footer = base64::encode(named("key"));
    let encoded = base64::encode_config(&footer, base64::URL_SAFE_NO_PAD);
    let reason = |token: &str| {
        match paseto::v2::verify_paseto(token, Some(&footer), keys.get("key").unwrap()) {
            Ok(_) => panic!("verified"),
            Err(err) => err.to_string(),
        }
    };
    // All that is wrong is that there is no room for a signature.
    assert!(matches!(
        read_token(&format!("v2.public.AAAA.{}", encoded), &keys),
        Err(TokenError::SignatureMissing)
    ));
    for token in [
        // Not a signed token of this version.
        format!("v1.public.AAAA.{}", encoded),
        format!("v2.local.AAAA.{}", encoded),
        // The third part does not decode.
        format!("v2.public.!.{}", encoded),
        // The footer decodes, but is not written the way it should be.
        format!("v2.public.AAAA.{}=", encoded),
    ] {
        match read_token(&token, &keys) {
            Err(TokenError::Unverified(text)) => assert_eq!(text, reason(&token)),
            other => panic!("{:?}", other),
        }
    }
}

#[test]
fn later_keys_take_the_place_of_earlier_ones() {
    let mut keys = Pubkeys::new();
    assert!(keys.get("a").is_none());
    keys.insert("a".to_string(), vec![1]);
    keys.insert("b".to_string(), vec![2]);
    keys.insert("a".to_string(), vec![3]);
    assert_eq!(keys.get("a"), Some(&vec![3]));
    assert_eq!(keys.get("b"), Some(&vec![2]));
    assert!(keys.get("c").is_none());
}

#[test]
fn dots_part_a_token() {
    assert_eq!(
        split_dots(b"a..bc."),
        vec![b"a".to_vec(), vec![], b"bc".to_vec(), vec![]]
    );
    assert_eq!(split_dots(b""), vec![Vec::<u8>::new()]);
}
