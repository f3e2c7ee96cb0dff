//! What the messages in a token look like, byte by byte, and that they are read as what they say.

use vstd::prelude::*;
use vstd::utf8::{decode_utf8, encode_utf8, encode_utf8_decode_utf8};
use vstd::utf8::{encode_utf8_valid_utf8, valid_utf8};

use super::api::{key_id, member, metadata, nested, number, repl_token, text, timestamp};
use super::api::{MetadataView, ReplTokenView, Timestamp};
use super::wire::{delimited, fields, key, next_field, varint, varint_from};
use super::wire::{FieldValueView, FieldView};
use crate::outside::nested_accepted;

verus! {

/// A number in groups of seven bits, low ones first; all bytes but the last one have their high bit
/// set.
pub open spec fn number_bytes(n: int) -> Seq<u8>
    decreases n,
{
    if n < 128 {
        seq![n as u8]
    } else {
        seq![(128 + n % 128) as u8] + number_bytes(n / 128)
    }
}

/// A field with a number.
pub open spec fn number_field(tag: int, n: u64) -> Seq<u8> {
    number_bytes(8 * tag) + number_bytes(n as int)
}

/// A field with bytes.
pub open spec fn bytes_field(tag: int, bytes: Seq<u8>) -> Seq<u8> {
    number_bytes(8 * tag + 2) + number_bytes(bytes.len() as int) + bytes
}

/// A field with a text.
pub open spec fn text_field(tag: int, t: Seq<char>) -> Seq<u8> {
    bytes_field(tag, encode_utf8(t))
}

/// How many numbers there are of those that start at byte `i` of an encoding.
pub open spec fn limit(i: int) -> int
    decreases i,
{
    if i <= 0 {
        0x1_0000_0000_0000_0000
    } else {
        limit(i - 1) / 128
    }
}

proof fn lemma_limits()
    ensures
        limit(0) == 0x1_0000_0000_0000_0000,
        limit(1) == 0x200_0000_0000_0000,
        limit(2) == 0x4_0000_0000_0000,
        limit(3) == 0x800_0000_0000,
        limit(4) == 0x10_0000_0000,
        limit(5) == 0x2000_0000,
        limit(6) == 0x40_0000,
        limit(7) == 0x8000,
        limit(8) == 0x100,
        limit(9) == 2,
        limit(10) == 0,
{
    reveal_with_fuel(limit, 11);
}

proof fn lemma_number_from(s: Seq<u8>, i: int, n: int)
    requires
        0 <= i <= 9,
        0 <= n < limit(i),
        i + number_bytes(n).len() <= s.len(),
        s.subrange(i, i + number_bytes(n).len()) == number_bytes(n),
    ensures
        varint_from(s, i) == Some((n, i + number_bytes(n).len())),
    decreases n,
{
    lemma_limits();
    let bytes = number_bytes(n);
    assert(s[i] == s.subrange(i, i + bytes.len())[0]);
    if n >= 128 {
        let rest = number_bytes(n / 128);
        assert(n / 128 < limit(i + 1));
        assert(i < 9);
        assert(s.subrange(i + 1, i + 1 + rest.len()) =~= rest) by {
            assert forall|k: int| 0 <= k < rest.len() implies s.subrange(
                i + 1,
                i + 1 + rest.len(),
            )[k] == rest[k] by {
                assert(s.subrange(i, i + bytes.len())[k + 1] == bytes[k + 1]);
            }
        }
        lemma_number_from(s, i + 1, n / 128);
    }
}

/// A number is read as what it is, and ends where its bytes do, whatever follows.
pub proof fn law_wire_numbers_are_read_back(n: u64, rest: Seq<u8>)
    ensures
        varint(number_bytes(n as int) + rest) == Some(
            (n as int, number_bytes(n as int).len() as int),
        ),
        number_bytes(n as int).len() >= 1,
{
    lemma_limits();
    let s = number_bytes(n as int) + rest;
    assert(s.subrange(0, number_bytes(n as int).len() as int) =~= number_bytes(n as int));
    lemma_number_from(s, 0, n as int);
}

/// A field is read as what it is, with its tag, and ends where its bytes do, whatever follows: one
/// with a number, and one with bytes.
pub proof fn law_wire_fields_are_read_back(tag: int, n: u64, bytes: Seq<u8>, rest: Seq<u8>)
    requires
        1 <= tag <= 536870911,
        bytes.len() <= u64::MAX,
    ensures
        next_field(number_field(tag, n) + rest) == Some(
            (FieldView { tag: tag as u32, value: FieldValueView::Varint(n) }, rest),
        ),
        next_field(bytes_field(tag, bytes) + rest) == Some(
            (FieldView { tag: tag as u32, value: FieldValueView::Bytes(bytes) }, rest),
        ),
        number_field(tag, n).len() > 0,
        bytes_field(tag, bytes).len() > 0,
{
    let k1 = (8 * tag) as u64;
    let tail1 = number_bytes(n as int) + rest;
    law_wire_numbers_are_read_back(k1, tail1);
    law_wire_numbers_are_read_back(n, rest);
    let s1 = number_field(tag, n) + rest;
    assert(s1 =~= number_bytes(k1 as int) + tail1);
    assert(s1.skip(number_bytes(k1 as int).len() as int) =~= tail1);
    assert(tail1.skip(number_bytes(n as int).len() as int) =~= rest);
    assert(key(s1) == Some((tag, 0int, tail1)));
    let k2 = (8 * tag + 2) as u64;
    let size = bytes.len() as u64;
    let tail2 = number_bytes(size as int) + (bytes + rest);
    law_wire_numbers_are_read_back(k2, tail2);
    law_wire_numbers_are_read_back(size, bytes + rest);
    let s2 = bytes_field(tag, bytes) + rest;
    assert(s2 =~= number_bytes(k2 as int) + tail2);
    assert(s2.skip(number_bytes(k2 as int).len() as int) =~= tail2);
    assert(key(s2) == Some((tag, 2int, tail2)));
    let m = number_bytes(size as int).len() as int;
    assert(tail2.subrange(m, m + size) =~= bytes);
    assert(tail2.skip(m + size) =~= rest);
    assert(delimited(tail2) == Some((bytes, rest)));
}

/// The fields of a message are those that were written into it, one after the other.
pub proof fn law_wire_messages_are_read_back(tag: int, n: u64, bytes: Seq<u8>, rest: Seq<u8>)
    requires
        1 <= tag <= 536870911,
        bytes.len() <= u64::MAX,
    ensures
        fields(Seq::empty()) == Some(Seq::<FieldView>::empty()),
        fields(rest) matches Some(others) ==> fields(number_field(tag, n) + rest) == Some(
            seq![FieldView { tag: tag as u32, value: FieldValueView::Varint(n) }] + others,
        ) && fields(bytes_field(tag, bytes) + rest) == Some(
            seq![FieldView { tag: tag as u32, value: FieldValueView::Bytes(bytes) }] + others,
        ),
        fields(rest) is None ==> fields(number_field(tag, n) + rest) is None && fields(
            bytes_field(tag, bytes) + rest,
        ) is None,
{
    law_wire_fields_are_read_back(tag, n, bytes, rest);
}

/// The message with a point in time.
pub open spec fn timestamp_bytes(t: Timestamp) -> Seq<u8> {
    number_field(1, t.seconds as u64) + number_field(2, (t.nanos as i64) as u64)
}

/// The message with what a token says about its repl: a repl, or the identifier of one and of its
/// source.
pub open spec fn metadata_bytes(m: MetadataView) -> Seq<u8> {
    match m {
        MetadataView::Repl { id } => text_field(1, id),
        MetadataView::Id { id, source_repl } => text_field(1, id) + text_field(2, source_repl),
    }
}

/// The field with what a token says about its repl.
pub open spec fn metadata_field(m: MetadataView) -> Seq<u8> {
    match m {
        MetadataView::Repl { .. } => bytes_field(7, metadata_bytes(m)),
        MetadataView::Id { .. } => bytes_field(8, metadata_bytes(m)),
    }
}

/// A token, with its fields in order, and something in a field that does not matter.
pub open spec fn token_bytes(t: ReplTokenView, tag: int, other: Seq<u8>) -> Seq<u8> {
    (match t.iat {
        Some(iat) => bytes_field(1, timestamp_bytes(iat)),
        None => Seq::empty(),
    }) + ((match t.exp {
        Some(exp) => bytes_field(2, timestamp_bytes(exp)),
        None => Seq::empty(),
    }) + (text_field(4, t.cluster) + (bytes_field(tag, other) + match t.metadata {
        Some(m) => metadata_field(m),
        None => Seq::empty(),
    })))
}

/// Whether the messages in a token are not refused for how deep they are.
pub open spec fn not_too_deep(t: ReplTokenView) -> bool {
    &&& t.iat matches Some(iat) ==> nested_accepted(timestamp_bytes(iat))
    &&& t.exp matches Some(exp) ==> nested_accepted(timestamp_bytes(exp))
    &&& t.metadata matches Some(m) ==> nested_accepted(metadata_bytes(m))
}

/// Whether the texts in a token are short enough for their lengths to be written down.
pub open spec fn not_too_long(t: ReplTokenView) -> bool {
    &&& encode_utf8(t.cluster).len() <= 0xffff_ffff
    &&& t.metadata matches Some(MetadataView::Repl { id }) ==> encode_utf8(id).len() <= 0xffff_ffff
    &&& t.metadata matches Some(MetadataView::Id { id, source_repl }) ==> encode_utf8(id).len()
        <= 0xffff_ffff && encode_utf8(source_repl).len() <= 0xffff_ffff
}

proof fn lemma_number_bytes_len(n: int)
    requires
        0 <= n < 0x1_0000_0000_0000_0000,
    ensures
        1 <= number_bytes(n).len() <= 10,
{
    lemma_limits();
    lemma_number_bytes_len_from(n, 0);
}

proof fn lemma_number_bytes_len_from(n: int, i: int)
    requires
        0 <= i <= 9,
        0 <= n < limit(i),
    ensures
        1 <= number_bytes(n).len() <= 10 - i,
    decreases n,
{
    lemma_limits();
    if n >= 128 {
        assert(n / 128 < limit(i + 1));
        assert(i < 9);
        lemma_number_bytes_len_from(n / 128, i + 1);
    }
}

proof fn lemma_timestamp_bytes(t: Timestamp)
    ensures
        timestamp_bytes(t).len() <= 40,
        fields(timestamp_bytes(t)) == Some(
            seq![
                FieldView { tag: 1, value: FieldValueView::Varint(t.seconds as u64) },
                FieldView { tag: 2, value: FieldValueView::Varint((t.nanos as i64) as u64) },
            ],
        ),
{
    let a = t.seconds as u64;
    let b = (t.nanos as i64) as u64;
    lemma_number_bytes_len(8);
    lemma_number_bytes_len(16);
    lemma_number_bytes_len(a as int);
    lemma_number_bytes_len(b as int);
    law_wire_messages_are_read_back(2, b, Seq::empty(), Seq::empty());
    assert(number_field(2, b) + Seq::<u8>::empty() =~= number_field(2, b));
    law_wire_messages_are_read_back(1, a, Seq::empty(), number_field(2, b));
    assert(seq![FieldView { tag: 1u32, value: FieldValueView::Varint(a) }] + (seq![
        FieldView { tag: 2u32, value: FieldValueView::Varint(b) },
    ] + Seq::<FieldView>::empty()) =~= seq![
        FieldView { tag: 1, value: FieldValueView::Varint(a) },
        FieldView { tag: 2, value: FieldValueView::Varint(b) },
    ]);
}

proof fn lemma_timestamp_numbers(t: Timestamp)
    ensures
        ({
            let list = seq![
                FieldView { tag: 1, value: FieldValueView::Varint(t.seconds as u64) },
                FieldView { tag: 2, value: FieldValueView::Varint((t.nanos as i64) as u64) },
            ];
            &&& number(list, 1) == Some(t.seconds as u64)
            &&& number(list, 2) == Some((t.nanos as i64) as u64)
            &&& (t.seconds as u64) as i64 == t.seconds
            &&& ((t.nanos as i64) as u64) as i32 == t.nanos
        }),
{
    let first = FieldView { tag: 1, value: FieldValueView::Varint(t.seconds as u64) };
    let second = FieldView { tag: 2, value: FieldValueView::Varint((t.nanos as i64) as u64) };
    let list = seq![first, second];
    reveal_with_fuel(number, 3);
    assert(list.drop_last() =~= seq![first]);
    assert(seq![first].drop_last() =~= Seq::<FieldView>::empty());
    let seconds = t.seconds;
    let nanos = t.nanos;
    assert((seconds as u64) as i64 == seconds) by (bit_vector);
    assert(((nanos as i64) as u64) as i32 == nanos) by (bit_vector);
}

proof fn lemma_metadata_bytes(m: MetadataView)
    requires
        m matches MetadataView::Repl { id } ==> encode_utf8(id).len() <= 0xffff_ffff,
        m matches MetadataView::Id { id, source_repl } ==> encode_utf8(id).len() <= 0xffff_ffff
            && encode_utf8(source_repl).len() <= 0xffff_ffff,
    ensures
        metadata_bytes(m).len() <= 0x3_0000_0000,
        fields(metadata_bytes(m)) == Some(
            match m {
                MetadataView::Repl { id } => seq![
                    FieldView { tag: 1, value: FieldValueView::Bytes(encode_utf8(id)) },
                ],
                MetadataView::Id { id, source_repl } => seq![
                    FieldView { tag: 1, value: FieldValueView::Bytes(encode_utf8(id)) },
                    FieldView { tag: 2, value: FieldValueView::Bytes(encode_utf8(source_repl)) },
                ],
            },
        ),
{
    lemma_number_bytes_len(10);
    lemma_number_bytes_len(18);
    match m {
        MetadataView::Repl { id } => {
            let b = encode_utf8(id);
            lemma_number_bytes_len(b.len() as int);
            law_wire_messages_are_read_back(1, 0, b, Seq::empty());
            assert(bytes_field(1, b) + Seq::<u8>::empty() =~= bytes_field(1, b));
            assert(seq![FieldView { tag: 1u32, value: FieldValueView::Bytes(b) }] + Seq::<
                FieldView,
            >::empty() =~= seq![FieldView { tag: 1, value: FieldValueView::Bytes(b) }]);
        },
        MetadataView::Id { id, source_repl } => {
            let b = encode_utf8(id);
            let c = encode_utf8(source_repl);
            lemma_number_bytes_len(b.len() as int);
            lemma_number_bytes_len(c.len() as int);
            law_wire_messages_are_read_back(2, 0, c, Seq::empty());
            assert(bytes_field(2, c) + Seq::<u8>::empty() =~= bytes_field(2, c));
            law_wire_messages_are_read_back(1, 0, b, bytes_field(2, c));
            assert(seq![FieldView { tag: 1u32, value: FieldValueView::Bytes(b) }] + (seq![
                FieldView { tag: 2u32, value: FieldValueView::Bytes(c) },
            ] + Seq::<FieldView>::empty()) =~= seq![
                FieldView { tag: 1, value: FieldValueView::Bytes(b) },
                FieldView { tag: 2, value: FieldValueView::Bytes(c) },
            ]);
        },
    }
}

proof fn lemma_metadata_texts(m: MetadataView)
    ensures
        ({
            let list = match m {
                MetadataView::Repl { id } => seq![
                    FieldView { tag: 1, value: FieldValueView::Bytes(encode_utf8(id)) },
                ],
                MetadataView::Id { id, source_repl } => seq![
                    FieldView { tag: 1, value: FieldValueView::Bytes(encode_utf8(id)) },
                    FieldView { tag: 2, value: FieldValueView::Bytes(encode_utf8(source_repl)) },
                ],
            };
            match m {
                MetadataView::Repl { id } => text(list, 1) == Some(id),
                MetadataView::Id { id, source_repl } => text(list, 1) == Some(id) && text(list, 2)
                    == Some(source_repl),
            }
        }),
{
    reveal_with_fuel(text, 3);
    match m {
        MetadataView::Repl { id } => {
            encode_utf8_valid_utf8(id);
            encode_utf8_decode_utf8(id);
            let first = FieldView { tag: 1, value: FieldValueView::Bytes(encode_utf8(id)) };
            assert(seq![first].drop_last() =~= Seq::<FieldView>::empty());
        },
        MetadataView::Id { id, source_repl } => {
            encode_utf8_valid_utf8(id);
            encode_utf8_decode_utf8(id);
            encode_utf8_valid_utf8(source_repl);
            encode_utf8_decode_utf8(source_repl);
            let first = FieldView { tag: 1, value: FieldValueView::Bytes(encode_utf8(id)) };
            let second = FieldView {
                tag: 2,
                value: FieldValueView::Bytes(encode_utf8(source_repl)),
            };
            assert(seq![first, second].drop_last() =~= seq![first]);
            assert(seq![first].drop_last() =~= Seq::<FieldView>::empty());
        },
    }
}

/// The fields of a token.
spec fn token_fields(t: ReplTokenView, tag: int, other: Seq<u8>) -> Seq<FieldView> {
    (match t.iat {
        Some(iat) => seq![FieldView { tag: 1, value: FieldValueView::Bytes(timestamp_bytes(iat)) }],
        None => Seq::empty(),
    }) + ((match t.exp {
        Some(exp) => seq![FieldView { tag: 2, value: FieldValueView::Bytes(timestamp_bytes(exp)) }],
        None => Seq::empty(),
    }) + (seq![FieldView { tag: 4, value: FieldValueView::Bytes(encode_utf8(t.cluster)) }] + (seq![
        FieldView { tag: tag as u32, value: FieldValueView::Bytes(other) },
    ] + match t.metadata {
        Some(m) => seq![
            FieldView {
                tag: if m is Repl {
                    7
                } else {
                    8
                },
                value: FieldValueView::Bytes(metadata_bytes(m)),
            },
        ],
        None => Seq::empty(),
    })))
}

proof fn lemma_token_fields(t: ReplTokenView, tag: int, other: Seq<u8>)
    requires
        not_too_long(t),
        1 <= tag <= 536870911,
        other.len() <= 0xffff_ffff,
    ensures
        fields(token_bytes(t, tag, other)) == Some(token_fields(t, tag, other)),
{
    let none = Seq::<u8>::empty();
    let last = match t.metadata {
        Some(m) => metadata_field(m),
        None => none,
    };
    if let Some(m) = t.metadata {
        lemma_metadata_bytes(m);
        let b = metadata_bytes(m);
        law_wire_messages_are_read_back(7, 0, b, none);
        law_wire_messages_are_read_back(8, 0, b, none);
        assert(bytes_field(7, b) + none =~= bytes_field(7, b));
        assert(bytes_field(8, b) + none =~= bytes_field(8, b));
        assert(fields(last) is Some);
    } else {
        law_wire_messages_are_read_back(7, 0, none, none);
    }
    law_wire_messages_are_read_back(tag, 0, other, last);
    let from_other = bytes_field(tag, other) + last;
    law_wire_messages_are_read_back(4, 0, encode_utf8(t.cluster), from_other);
    let from_cluster = text_field(4, t.cluster) + from_other;
    let from_exp = (match t.exp {
        Some(exp) => bytes_field(2, timestamp_bytes(exp)),
        None => none,
    }) + from_cluster;
    if let Some(exp) = t.exp {
        lemma_timestamp_bytes(exp);
        law_wire_messages_are_read_back(2, 0, timestamp_bytes(exp), from_cluster);
    } else {
        assert(from_exp =~= from_cluster);
    }
    if let Some(iat) = t.iat {
        lemma_timestamp_bytes(iat);
        law_wire_messages_are_read_back(1, 0, timestamp_bytes(iat), from_exp);
    } else {
        assert(token_bytes(t, tag, other) =~= from_exp);
    }
    match fields(token_bytes(t, tag, other)) {
        Some(list) => {
            assert(list =~= token_fields(t, tag, other));
        },
        None => {},
    }
}

/// What one more field at the end changes.
proof fn lemma_last_field(earlier: Seq<FieldView>, f: FieldView, tag: u32)
    ensures
        f.tag != tag ==> nested(earlier.push(f), tag) == nested(earlier, tag) && text(
            earlier.push(f),
            tag,
        ) == text(earlier, tag),
        f.tag != 7 && f.tag != 8 ==> member(earlier.push(f)) == member(earlier),
{
    assert(earlier.push(f).drop_last() =~= earlier);
}

#[verifier::rlimit(40)]
proof fn lemma_token_read(t: ReplTokenView, tag: int, other: Seq<u8>)
    requires
        not_too_long(t),
        not_too_deep(t),
        1 <= tag <= 536870911,
        tag != 1 && tag != 2 && tag != 4 && tag != 7 && tag != 8,
    ensures
        ({
            let list = token_fields(t, tag, other);
            &&& timestamp(list, 1) == Some(t.iat)
            &&& timestamp(list, 2) == Some(t.exp)
            &&& text(list, 4) == Some(t.cluster)
            &&& metadata(list) == Some(t.metadata)
        }),
{
    let none = Seq::<FieldView>::empty();
    let list = token_fields(t, tag, other);
    let cluster = FieldView { tag: 4, value: FieldValueView::Bytes(encode_utf8(t.cluster)) };
    let odd = FieldView { tag: tag as u32, value: FieldValueView::Bytes(other) };
    encode_utf8_valid_utf8(t.cluster);
    encode_utf8_decode_utf8(t.cluster);
    let l1 = match t.iat {
        Some(iat) => none.push(
            FieldView { tag: 1, value: FieldValueView::Bytes(timestamp_bytes(iat)) },
        ),
        None => none,
    };
    if let Some(iat) = t.iat {
        lemma_timestamp_bytes(iat);
        lemma_timestamp_numbers(iat);
        assert(l1.drop_last() =~= none);
        lemma_last_field(none, l1.last(), 2);
        lemma_last_field(none, l1.last(), 4);
    }
    assert(timestamp(l1, 1) == Some(t.iat));
    assert(nested(l1, 2) == Some(None::<Seq<FieldView>>));
    let l2 = match t.exp {
        Some(exp) => l1.push(
            FieldView { tag: 2, value: FieldValueView::Bytes(timestamp_bytes(exp)) },
        ),
        None => l1,
    };
    if let Some(exp) = t.exp {
        lemma_timestamp_bytes(exp);
        lemma_timestamp_numbers(exp);
        assert(l2.drop_last() =~= l1);
        lemma_last_field(l1, l2.last(), 1);
        lemma_last_field(l1, l2.last(), 4);
    }
    assert(timestamp(l2, 1) == Some(t.iat) && timestamp(l2, 2) == Some(t.exp));
    let l3 = l2.push(cluster);
    assert(l3.drop_last() =~= l2);
    lemma_last_field(l2, cluster, 1);
    lemma_last_field(l2, cluster, 2);
    assert(text(l3, 4) == Some(t.cluster)) by {
        assert(text(l2, 4) is Some);
    }
    let l4 = l3.push(odd);
    lemma_last_field(l3, odd, 1);
    lemma_last_field(l3, odd, 2);
    lemma_last_field(l3, odd, 4);
    assert(member(l4) == Some(None::<(u32, Seq<FieldView>)>));
    match t.metadata {
        Some(m) => {
            let f = FieldView {
                tag: if m is Repl {
                    7
                } else {
                    8
                },
                value: FieldValueView::Bytes(metadata_bytes(m)),
            };
            lemma_metadata_bytes(m);
            lemma_metadata_texts(m);
            lemma_last_field(l4, f, 1);
            lemma_last_field(l4, f, 2);
            lemma_last_field(l4, f, 4);
            assert(l4.push(f).drop_last() =~= l4);
            assert(list =~= l4.push(f));
        },
        None => {
            assert(list =~= l4);
        },
    }
}

/// A token is read as what it says: its times, whatever they are, its cluster, and its repl in
/// either way. A field that means nothing here is passed over.
pub proof fn law_tokens_are_read_back(t: ReplTokenView, tag: int, other: Seq<u8>)
    requires
        not_too_long(t),
        not_too_deep(t),
        1 <= tag <= 536870911,
        tag != 1 && tag != 2 && tag != 4 && tag != 7 && tag != 8,
        other.len() <= 0xffff_ffff,
    ensures
        repl_token(token_bytes(t, tag, other)) == Some(t),
{
    lemma_token_fields(t, tag, other);
    lemma_token_read(t, tag, other);
}

/// The footer of a token is read as the identifier of the key that it names.
pub proof fn law_footers_are_read_back(id: Seq<char>)
    requires
        encode_utf8(id).len() <= 0xffff_ffff,
    ensures
        key_id(text_field(1, id)) == Some(id),
{
    let m = MetadataView::Repl { id };
    lemma_metadata_bytes(m);
    lemma_metadata_texts(m);
}

/// What bytes stand for in groups of seven bits, low ones first.
pub open spec fn number_value(s: Seq<u8>) -> int
    decreases s.len(),
{
    if s.len() == 0 {
        0
    } else {
        s[0] % 128 + 128 * number_value(s.skip(1))
    }
}

/// Whether the first `n` bytes, and no fewer, are a number.
pub open spec fn number_ends_at(s: Seq<u8>, n: int) -> bool {
    &&& 1 <= n <= 10
    &&& n <= s.len()
    &&& s[n - 1] < 128
    &&& forall|i: int| 0 <= i < n - 1 ==> #[trigger] s[i] >= 128
    &&& number_value(s.take(n)) <= u64::MAX
}

proof fn lemma_number_value_is_natural(s: Seq<u8>)
    ensures
        number_value(s) >= 0,
    decreases s.len(),
{
    if s.len() > 0 {
        lemma_number_value_is_natural(s.skip(1));
    }
}

proof fn lemma_number_is_found(s: Seq<u8>, i: int, n: int)
    requires
        0 <= i < n <= 10,
        n <= s.len(),
        s[n - 1] < 128,
        forall|k: int| i <= k < n - 1 ==> #[trigger] s[k] >= 128,
        number_value(s.subrange(i, n)) < limit(i),
    ensures
        varint_from(s, i) == Some((number_value(s.subrange(i, n)), n)),
    decreases n - i,
{
    lemma_limits();
    let part = s.subrange(i, n);
    let rest = s.subrange(i + 1, n);
    assert(part.skip(1) =~= rest);
    assert(part[0] == s[i]);
    lemma_number_value_is_natural(rest);
    if i < n - 1 {
        assert(s[i] >= 128);
        assert(128 * number_value(rest) < limit(i));
        lemma_number_is_found(s, i + 1, n);
    } else {
        assert(rest =~= Seq::<u8>::empty());
    }
}

proof fn lemma_found_number(s: Seq<u8>, i: int)
    requires
        0 <= i <= 9,
    ensures
        varint_from(s, i) matches Some((v, n)) ==> i < n <= 10 && n <= s.len() && s[n - 1] < 128
            && v == number_value(s.subrange(i, n)) && 0 <= v < limit(i) && forall|k: int|
            i <= k < n - 1 ==> #[trigger] s[k] >= 128,
    decreases 10 - i,
{
    lemma_limits();
    if let Some((v, n)) = varint_from(s, i) {
        if s[i] < 128 {
            let part = s.subrange(i, n);
            assert(part.skip(1) =~= Seq::<u8>::empty());
            assert(part[0] == s[i]);
            assert(number_value(part.skip(1)) == 0);
        } else if i < 9 {
            lemma_found_number(s, i + 1);
            let part = s.subrange(i, n);
            assert(part.skip(1) =~= s.subrange(i + 1, n));
            assert(part[0] == s[i]);
        } else {
            assert(varint_from(s, 10) is None);
        }
    }
}

/// A number is read from the bytes up to the first one without its high bit, and is what they stand
/// for. There is none exactly where there is no such byte among the first ten, or what they stand
/// for takes more than 64 bits.
pub proof fn law_wire_numbers(s: Seq<u8>)
    ensures
        varint(s) matches Some((v, n)) ==> number_ends_at(s, n) && v == number_value(s.take(n)),
        varint(s) is None ==> forall|n: int| !#[trigger] number_ends_at(s, n),
{
    lemma_limits();
    lemma_found_number(s, 0);
    assert forall|n: int| #[trigger] number_ends_at(s, n) implies varint(s) is Some by {
        assert(s.subrange(0, n) =~= s.take(n));
        lemma_number_is_found(s, 0, n);
    }
    if let Some((v, n)) = varint(s) {
        assert(s.subrange(0, n) =~= s.take(n));
    }
}

/// A field of another form is passed over where its form says how long it is. A key that is too
/// large, or has no tag or no form, is refused, and so is the end of a group and a run of bytes
/// that is cut short.
pub proof fn law_other_wire_fields(k: u64, n: u64, rest: Seq<u8>)
    ensures
        ({
            let s = number_bytes(k as int) + rest;
            let usual = 8 <= k <= u32::MAX;
            let passed = FieldView { tag: (k / 8) as u32, value: FieldValueView::Skipped };
            &&& !usual || k % 8 == 6 || k % 8 == 7 ==> next_field(s) is None
            &&& usual && k % 8 == 1 ==> next_field(s) == (if rest.len() >= 8 {
                Some((passed, rest.skip(8)))
            } else {
                None
            })
            &&& usual && k % 8 == 5 ==> next_field(s) == (if rest.len() >= 4 {
                Some((passed, rest.skip(4)))
            } else {
                None
            })
            &&& usual && k % 8 == 4 ==> next_field(s) is None
            &&& usual && k % 8 == 2 && rest.len() < n ==> next_field(
                number_bytes(k as int) + (number_bytes(n as int) + rest),
            ) is None
        }),
{
    let s = number_bytes(k as int) + rest;
    law_wire_numbers_are_read_back(k, rest);
    assert(s.skip(number_bytes(k as int).len() as int) =~= rest);
    let tail = number_bytes(n as int) + rest;
    let t = number_bytes(k as int) + tail;
    law_wire_numbers_are_read_back(k, tail);
    law_wire_numbers_are_read_back(n, rest);
    assert(t.skip(number_bytes(k as int).len() as int) =~= tail);
}

/// A message that has a field which cannot be read is refused, and so is everything behind it.
pub proof fn law_bad_messages_are_refused(s: Seq<u8>)
    requires
        s.len() > 0,
    ensures
        next_field(s) is None ==> fields(s) is None,
        next_field(s) matches Some((f, rest)) ==> (rest.len() < s.len() ==> ({
            &&& fields(rest) is None ==> fields(s) is None
            &&& fields(rest) matches Some(others) ==> fields(s) == Some(seq![f] + others)
        })),
{
}

/// Of several numbers with the same tag the last one counts, and without one it is 0. Anything else
/// with that tag is an error, wherever it stands.
#[verifier::spinoff_prover]
#[verifier::rlimit(60)]
pub proof fn law_last_number_counts(list: Seq<FieldView>, tag: u32)
    ensures
        number(list, tag) is None <==> exists|i: int|
            0 <= i < list.len() && (#[trigger] list[i]).tag == tag && !(list[i].value is Varint),
        (forall|i: int| 0 <= i < list.len() ==> (#[trigger] list[i]).tag != tag) ==> number(
            list,
            tag,
        ) == Some(0u64),
        forall|i: int|
            0 <= i < list.len() && (#[trigger] list[i]).tag == tag && (forall|j: int|
                i < j < list.len() ==> (#[trigger] list[j]).tag != tag) && number(list, tag) is Some
                ==> list[i].value == FieldValueView::Varint(number(list, tag)->0),
    decreases list.len(),
{
    if list.len() > 0 {
        let earlier = list.drop_last();
        law_last_number_counts(earlier, tag);
        assert forall|i: int| 0 <= i < earlier.len() implies earlier[i] == list[i] by {}
        let n = list.len() - 1;
        if number(list, tag) is None {
            if number(earlier, tag) is None {
                let i = choose|i: int|
                    0 <= i < earlier.len() && (#[trigger] earlier[i]).tag == tag && !(
                    earlier[i].value is Varint);
                assert(list[i].tag == tag);
            } else {
                assert(list[n].tag == tag);
            }
        }
        assert forall|i: int|
            0 <= i < list.len() && (#[trigger] list[i]).tag == tag && (forall|j: int|
                i < j < list.len() ==> (#[trigger] list[j]).tag != tag) && number(
                list,
                tag,
            ) is Some implies list[i].value == FieldValueView::Varint(number(list, tag)->0) by {
            if i < n {
                assert(list[n].tag != tag);
                assert(earlier[i].tag == tag);
                assert forall|j: int| i < j < earlier.len() implies (#[trigger] earlier[j]).tag
                    != tag by {
                    assert(list[j].tag != tag);
                }
            }
        }
    }
}

proof fn lemma_last_text(list: Seq<FieldView>, tag: u32, i: int)
    requires
        0 <= i < list.len(),
        list[i].tag == tag,
        forall|j: int| i < j < list.len() ==> (#[trigger] list[j]).tag != tag,
        text(list, tag) is Some,
    ensures
        list[i].value matches FieldValueView::Bytes(bytes) && text(list, tag) == Some(
            decode_utf8(bytes),
        ),
    decreases list.len(),
{
    let n = list.len() - 1;
    if i < n {
        assert(list[n].tag != tag);
        lemma_last_text(list.drop_last(), tag, i);
    }
}

proof fn lemma_wrong_text(list: Seq<FieldView>, tag: u32, i: int)
    requires
        0 <= i < list.len(),
        list[i].tag == tag,
        !is_text(list[i].value),
    ensures
        text(list, tag) is None,
    decreases list.len(),
{
    if i < list.len() - 1 {
        lemma_wrong_text(list.drop_last(), tag, i);
    }
}

proof fn lemma_right_texts(list: Seq<FieldView>, tag: u32)
    requires
        forall|i: int|
            0 <= i < list.len() && (#[trigger] list[i]).tag == tag ==> is_text(list[i].value),
    ensures
        text(list, tag) is Some,
        (forall|i: int| 0 <= i < list.len() ==> (#[trigger] list[i]).tag != tag) ==> text(list, tag)
            == Some(Seq::<char>::empty()),
    decreases list.len(),
{
    if list.len() > 0 {
        let earlier = list.drop_last();
        assert forall|i: int|
            0 <= i < earlier.len() && (#[trigger] earlier[i]).tag == tag implies is_text(
            earlier[i].value,
        ) by {
            assert(list[i].tag == tag);
        }
        lemma_right_texts(earlier, tag);
        let f = list[list.len() - 1];
        if forall|i: int| 0 <= i < list.len() ==> (#[trigger] list[i]).tag != tag {
            assert forall|i: int| 0 <= i < earlier.len() implies (#[trigger] earlier[i]).tag
                != tag by {
                assert(list[i].tag != tag);
            }
        }
        assert(f.tag == tag ==> is_text(f.value));
    }
}

/// Of several texts with the same tag the last one counts, and without one it is empty. Anything
/// else with that tag is an error, wherever it stands.
pub proof fn law_last_text_counts(list: Seq<FieldView>, tag: u32)
    ensures
        text(list, tag) is None <==> exists|i: int|
            0 <= i < list.len() && (#[trigger] list[i]).tag == tag && !is_text(list[i].value),
        (forall|i: int| 0 <= i < list.len() ==> (#[trigger] list[i]).tag != tag) ==> text(list, tag)
            == Some(Seq::<char>::empty()),
        forall|i: int|
            0 <= i < list.len() && (#[trigger] list[i]).tag == tag && (forall|j: int|
                i < j < list.len() ==> (#[trigger] list[j]).tag != tag) && text(list, tag) is Some
                ==> (list[i].value matches FieldValueView::Bytes(bytes) && text(list, tag) == Some(
                decode_utf8(bytes),
            )),
{
    if exists|i: int|
        0 <= i < list.len() && (#[trigger] list[i]).tag == tag && !is_text(list[i].value) {
        let i = choose|i: int|
            0 <= i < list.len() && (#[trigger] list[i]).tag == tag && !is_text(list[i].value);
        lemma_wrong_text(list, tag, i);
    } else {
        lemma_right_texts(list, tag);
    }
    assert forall|i: int|
        0 <= i < list.len() && (#[trigger] list[i]).tag == tag && (forall|j: int|
            i < j < list.len() ==> (#[trigger] list[j]).tag != tag) && text(
            list,
            tag,
        ) is Some implies (list[i].value matches FieldValueView::Bytes(bytes) && text(list, tag)
        == Some(decode_utf8(bytes))) by {
        lemma_last_text(list, tag, i);
    }
}

/// Whether a field holds a text.
pub open spec fn is_text(value: FieldValueView) -> bool {
    value matches FieldValueView::Bytes(bytes) && valid_utf8(bytes)
}

/// Whether a field holds a message with the given fields.
pub open spec fn holds(value: FieldValueView, inner: Seq<FieldView>) -> bool {
    value matches FieldValueView::Bytes(bytes) && nested_accepted(bytes) && fields(bytes) == Some(
        inner,
    )
}

/// Several messages with the same tag are taken together, in order, and fields with another tag
/// make no difference. Anything else with that tag is an error, wherever it stands.
pub proof fn law_messages_are_taken_together(
    earlier: Seq<FieldView>,
    f: FieldView,
    inner: Seq<FieldView>,
    tag: u32,
)
    ensures
        nested(Seq::empty(), tag) == Some(None::<Seq<FieldView>>),
        f.tag != tag ==> nested(earlier.push(f), tag) == nested(earlier, tag),
        f.tag == tag && holds(f.value, inner) ==> nested(earlier.push(f), tag) == (match nested(
            earlier,
            tag,
        ) {
            None => None,
            Some(before) => Some(
                Some(
                    (match before {
                        Some(b) => b,
                        None => Seq::empty(),
                    }) + inner,
                ),
            ),
        }),
        f.tag == tag && (forall|list: Seq<FieldView>| !#[trigger] holds(f.value, list)) ==> nested(
            earlier.push(f),
            tag,
        ) is None,
{
    assert(earlier.push(f).drop_last() =~= earlier);
    if holds(f.value, inner) {
        assert(Seq::<FieldView>::empty() + inner =~= inner);
    }
    if let FieldValueView::Bytes(bytes) = f.value {
        if nested_accepted(bytes) && fields(bytes) is Some {
            assert(holds(f.value, fields(bytes)->0));
        }
    }
}

/// What a token says about its repl is what it says last: a repl (tag 7), or the identifier of one
/// (tag 8). What it said before in the other way is forgotten; what it said before in the same way
/// is taken together with it. An identifier that is no text is an error, even where it is
/// forgotten.
pub proof fn law_last_member_counts(
    earlier: Seq<FieldView>,
    f: FieldView,
    inner: Seq<FieldView>,
    before: Option<(u32, Seq<FieldView>)>,
)
    requires
        member(earlier) == Some(before),
    ensures
        member(Seq::empty()) == Some(None::<(u32, Seq<FieldView>)>),
        f.tag != 7 && f.tag != 8 ==> member(earlier.push(f)) == Some(before),
        (f.tag == 7 || f.tag == 8) && holds(f.value, inner) ==> member(earlier.push(f)) == (if text(
            inner,
            1,
        ) is None || (f.tag == 8 && text(inner, 2) is None) {
            None
        } else {
            Some(
                Some(
                    (
                        f.tag,
                        (match before {
                            Some((tag, list)) => if tag == f.tag {
                                list
                            } else {
                                Seq::empty()
                            },
                            None => Seq::empty(),
                        }) + inner,
                    ),
                ),
            )
        }),
        (f.tag == 7 || f.tag == 8) && (forall|list: Seq<FieldView>|
            !#[trigger] holds(f.value, list)) ==> member(earlier.push(f)) is None,
        forall|next: FieldView|
            member(earlier.push(f)) is None ==> member(
                #[trigger] earlier.push(f).push(next),
            ) is None,
{
    assert(earlier.push(f).drop_last() =~= earlier);
    assert(Seq::<FieldView>::empty() + inner =~= inner);
    if let FieldValueView::Bytes(bytes) = f.value {
        if nested_accepted(bytes) && fields(bytes) is Some {
            assert(holds(f.value, fields(bytes)->0));
        }
    }
    assert forall|next: FieldView| member(earlier.push(f)) is None implies member(
        #[trigger] earlier.push(f).push(next),
    ) is None by {
        assert(earlier.push(f).push(next).drop_last() =~= earlier.push(f));
    }
}

/// Whether the seconds and the nanoseconds of a point in time are numbers.
pub open spec fn has_time(inner: Seq<FieldView>, t: Timestamp) -> bool {
    number(inner, 1) is Some && number(inner, 2) is Some && t.seconds == number(inner, 1)->0 as i64
        && t.nanos == number(inner, 2)->0 as i32
}

/// A token is refused if any part of it that means something is malformed, even where the others
/// would do. Otherwise it says what its parts say, in whatever order they come.
pub proof fn law_malformed_tokens_are_refused(s: Seq<u8>, list: Seq<FieldView>)
    requires
        fields(s) == Some(list),
    ensures
        text(list, 4) is None ==> repl_token(s) is None,
        member(list) is None ==> repl_token(s) is None,
        nested(list, 1) is None ==> repl_token(s) is None,
        nested(list, 2) is None ==> repl_token(s) is None,
        forall|inner: Seq<FieldView>|
            #![trigger number(inner, 1)]
            #![trigger number(inner, 2)]
            (nested(list, 1) == Some(Some(inner)) || nested(list, 2) == Some(Some(inner))) && (
            number(inner, 1) is None || number(inner, 2) is None) ==> repl_token(s) is None,
        repl_token(s) matches Some(t) ==> {
            &&& text(list, 4) == Some(t.cluster)
            &&& t.iat is None <==> nested(list, 1) == Some(None::<Seq<FieldView>>)
            &&& t.exp is None <==> nested(list, 2) == Some(None::<Seq<FieldView>>)
            &&& t.iat matches Some(iat) ==> (nested(list, 1) matches Some(Some(inner)) && has_time(
                inner,
                iat,
            ))
            &&& t.exp matches Some(exp) ==> (nested(list, 2) matches Some(Some(inner)) && has_time(
                inner,
                exp,
            ))
            &&& t.metadata is None <==> member(list) == Some(None::<(u32, Seq<FieldView>)>)
            &&& t.metadata matches Some(MetadataView::Repl { id }) ==> (member(list) matches Some(
                Some((tag, inner)),
            ) && tag == 7 && text(inner, 1) == Some(id))
            &&& t.metadata matches Some(MetadataView::Id { id, source_repl }) ==> (member(
                list,
            ) matches Some(Some((tag, inner))) && tag == 8 && text(inner, 1) == Some(id) && text(
                inner,
                2,
            ) == Some(source_repl))
        },
        key_id(s) == text(list, 1),
{
    lemma_member_tag(list);
}

proof fn lemma_member_tag(list: Seq<FieldView>)
    ensures
        member(list) matches Some(Some((tag, _))) ==> tag == 7 || tag == 8,
    decreases list.len(),
{
    if list.len() > 0 {
        lemma_member_tag(list.drop_last());
    }
}

/// What is no message at all is no token and no footer.
pub proof fn law_tokens_are_messages(s: Seq<u8>)
    requires
        fields(s) is None,
    ensures
        repl_token(s) is None,
        key_id(s) is None,
{
}

} // verus!
