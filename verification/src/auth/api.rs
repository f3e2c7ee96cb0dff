//! The messages that a Replit token carries.

use vstd::prelude::*;
use vstd::utf8::{decode_utf8, valid_utf8};

use super::wire::{decode_fields, fields, views, Field, FieldValue, FieldValueView, FieldView};
use crate::outside::{accepts_nested, nested_accepted, text_from_utf8, text_view};

verus! {

/// The tag of `GovalTokenMetadata.key_id`.
pub const KEY_ID: u32 = 1;

/// The tag of `ReplToken.iat`.
pub const IAT: u32 = 1;

/// The tag of `ReplToken.exp`.
pub const EXP: u32 = 2;

/// The tag of `ReplToken.cluster`.
pub const CLUSTER: u32 = 4;

/// The tag of `ReplToken.metadata` where it is a `Repl`.
pub const REPL: u32 = 7;

/// The tag of `ReplToken.metadata` where it is a `ReplId`.
pub const REPL_ID: u32 = 8;

/// The tag of `id` in a `Repl` and in a `ReplId`.
pub const ID: u32 = 1;

/// The tag of `ReplId.source_repl`.
pub const SOURCE_REPL: u32 = 2;

/// The tag of `Timestamp.seconds`.
pub const SECONDS: u32 = 1;

/// The tag of `Timestamp.nanos`.
pub const NANOS: u32 = 2;

/// A point in time, counted from the Unix epoch.
#[derive(Clone, Copy, Debug, PartialEq, Eq, Structural)]
pub struct Timestamp {
    pub seconds: i64,
    pub nanos: i32,
}

/// A repl, of which only the identifier matters here.
#[derive(Debug)]
pub struct Repl {
    pub id: String,
}

/// The identifier of a repl, and of the one that it was made from.
#[derive(Debug)]
pub struct ReplId {
    pub id: String,
    pub source_repl: String,
}

/// What a token says about the repl that it was issued for.
#[derive(Debug)]
pub enum Metadata {
    Repl(Repl),
    Id(ReplId),
}

/// The part of a Replit token that matters here.
#[derive(Debug)]
pub struct ReplToken {
    pub iat: Option<Timestamp>,
    pub exp: Option<Timestamp>,
    pub cluster: String,
    pub metadata: Option<Metadata>,
}

/// The mathematical counterpart of [`Metadata`].
pub enum MetadataView {
    Repl { id: Seq<char> },
    Id { id: Seq<char>, source_repl: Seq<char> },
}

/// The mathematical counterpart of [`ReplToken`].
pub struct ReplTokenView {
    pub iat: Option<Timestamp>,
    pub exp: Option<Timestamp>,
    pub cluster: Seq<char>,
    pub metadata: Option<MetadataView>,
}

impl View for Metadata {
    type V = MetadataView;

    open spec fn view(&self) -> MetadataView {
        match self {
            Metadata::Repl(repl) => MetadataView::Repl { id: repl.id@ },
            Metadata::Id(id) => MetadataView::Id { id: id.id@, source_repl: id.source_repl@ },
        }
    }
}

impl View for ReplToken {
    type V = ReplTokenView;

    open spec fn view(&self) -> ReplTokenView {
        ReplTokenView {
            iat: self.iat,
            exp: self.exp,
            cluster: self.cluster@,
            metadata: match self.metadata {
                Some(metadata) => Some(metadata@),
                None => None,
            },
        }
    }
}

/// The number in the field `tag`: the last one counts, and 0 stands for none. `None` if one of them
/// does not have the form of a number.
pub open spec fn number(list: Seq<FieldView>, tag: u32) -> Option<u64>
    decreases list.len(),
{
    if list.len() == 0 {
        Some(0)
    } else {
        let before = number(list.drop_last(), tag);
        if list.last().tag != tag {
            before
        } else {
            match (before, list.last().value) {
                (Some(_), FieldValueView::Varint(v)) => Some(v),
                _ => None,
            }
        }
    }
}

/// The text in the field `tag`: the last one counts, and the empty text stands for none. `None` if
/// one of them is not a text.
pub open spec fn text(list: Seq<FieldView>, tag: u32) -> Option<Seq<char>>
    decreases list.len(),
{
    if list.len() == 0 {
        Some(Seq::empty())
    } else {
        let before = text(list.drop_last(), tag);
        if list.last().tag != tag {
            before
        } else {
            match (before, list.last().value) {
                (Some(_), FieldValueView::Bytes(bytes)) => if valid_utf8(bytes) {
                    Some(decode_utf8(bytes))
                } else {
                    None
                },
                _ => None,
            }
        }
    }
}

/// The fields of the message in the field `tag`, or `Some(None)` if there is none. Where there are
/// several they are taken together. `None` if one of them is not a message.
pub open spec fn nested(list: Seq<FieldView>, tag: u32) -> Option<Option<Seq<FieldView>>>
    decreases list.len(),
{
    if list.len() == 0 {
        Some(None)
    } else {
        let before = nested(list.drop_last(), tag);
        if list.last().tag != tag {
            before
        } else {
            match (before, message_fields(list.last().value)) {
                (Some(Some(earlier)), Some(later)) => Some(Some(earlier + later)),
                (Some(None), Some(later)) => Some(Some(later)),
                _ => None,
            }
        }
    }
}

/// The fields of the message that a value holds.
pub open spec fn message_fields(value: FieldValueView) -> Option<Seq<FieldView>> {
    match value {
        FieldValueView::Bytes(bytes) => if nested_accepted(bytes) {
            fields(bytes)
        } else {
            None
        },
        _ => None,
    }
}

/// The fields of a `Repl` or of a `ReplId`, by the tag that it has in a token. `None` if the value
/// is not such a message.
pub open spec fn member_fields(tag: u32, value: FieldValueView) -> Option<Seq<FieldView>> {
    match message_fields(value) {
        None => None,
        Some(list) => if text(list, ID) is None || (tag == REPL_ID && text(
            list,
            SOURCE_REPL,
        ) is None) {
            None
        } else {
            Some(list)
        },
    }
}

/// The tag and the fields of the metadata, or `Some(None)` if there is none. The last one counts;
/// where the ones just before it have the same tag, they are taken together with it. `None` if one
/// of them, counted or not, is not a message of its kind.
pub open spec fn member(list: Seq<FieldView>) -> Option<Option<(u32, Seq<FieldView>)>>
    decreases list.len(),
{
    if list.len() == 0 {
        Some(None)
    } else {
        let before = member(list.drop_last());
        let tag = list.last().tag;
        if tag != REPL && tag != REPL_ID {
            before
        } else {
            match (before, member_fields(tag, list.last().value)) {
                (Some(Some((chosen, earlier))), Some(later)) => Some(
                    Some(
                        (
                            tag,
                            if chosen == tag {
                                earlier + later
                            } else {
                                later
                            },
                        ),
                    ),
                ),
                (Some(None), Some(later)) => Some(Some((tag, later))),
                _ => None,
            }
        }
    }
}

/// The point in time in the field `tag`.
pub open spec fn timestamp(list: Seq<FieldView>, tag: u32) -> Option<Option<Timestamp>> {
    match nested(list, tag) {
        None => None,
        Some(None) => Some(None),
        Some(Some(inner)) => match (number(inner, SECONDS), number(inner, NANOS)) {
            (Some(seconds), Some(nanos)) => Some(
                Some(Timestamp { seconds: seconds as i64, nanos: nanos as i32 }),
            ),
            _ => None,
        },
    }
}

/// What the token says about its repl.
pub open spec fn metadata(list: Seq<FieldView>) -> Option<Option<MetadataView>> {
    match member(list) {
        None => None,
        Some(None) => Some(None),
        Some(Some((tag, inner))) => match (text(inner, ID), text(inner, SOURCE_REPL)) {
            (Some(id), source_repl) => if tag == REPL {
                Some(Some(MetadataView::Repl { id }))
            } else {
                match source_repl {
                    Some(source_repl) => Some(Some(MetadataView::Id { id, source_repl })),
                    None => None,
                }
            },
            _ => None,
        },
    }
}

/// The identifier of the key that a token was signed with, from the token's footer.
pub open spec fn key_id(s: Seq<u8>) -> Option<Seq<char>> {
    match fields(s) {
        None => None,
        Some(list) => text(list, KEY_ID),
    }
}

/// The token that `s` encodes.
pub open spec fn repl_token(s: Seq<u8>) -> Option<ReplTokenView> {
    match fields(s) {
        None => None,
        Some(list) => match (
            timestamp(list, IAT),
            timestamp(list, EXP),
            text(list, CLUSTER),
            metadata(list),
        ) {
            (Some(iat), Some(exp), Some(cluster), Some(metadata)) => Some(
                ReplTokenView { iat, exp, cluster, metadata },
            ),
            _ => None,
        },
    }
}

proof fn lemma_prefix(list: Seq<Field>, i: int)
    requires
        0 <= i < list.len(),
    ensures
        views(list).take(i + 1).drop_last() == views(list).take(i),
        views(list).take(i + 1).last() == list[i]@,
{
    assert(views(list).take(i + 1).drop_last() =~= views(list).take(i));
}

/// Reads the number in the field `tag`.
pub fn get_number(list: &Vec<Field>, tag: u32) -> (found: Option<u64>)
    ensures
        found == number(views(list@), tag),
{
    let mut found: Option<u64> = Some(0);
    let mut i: usize = 0;
    assert(views(list@).take(0) =~= Seq::<FieldView>::empty());
    while i < list.len()
        invariant
            i <= list@.len(),
            found == number(views(list@).take(i as int), tag),
        decreases list@.len() - i,
    {
        proof {
            lemma_prefix(list@, i as int);
        }
        if list[i].tag == tag {
            found = match (found, &list[i].value) {
                (Some(_), FieldValue::Varint(v)) => Some(*v),
                _ => None,
            };
        }
        i = i + 1;
    }
    assert(views(list@).take(i as int) =~= views(list@));
    found
}

/// Reads the text in the field `tag`.
pub fn get_text(list: &Vec<Field>, tag: u32) -> (found: Option<String>)
    ensures
        text_view(found) == text(views(list@), tag),
{
    let mut found: Option<String> = Some(String::new());
    let mut i: usize = 0;
    assert(views(list@).take(0) =~= Seq::<FieldView>::empty());
    while i < list.len()
        invariant
            i <= list@.len(),
            text_view(found) == text(views(list@).take(i as int), tag),
        decreases list@.len() - i,
    {
        proof {
            lemma_prefix(list@, i as int);
        }
        if list[i].tag == tag {
            found = match (found, &list[i].value) {
                (Some(_), FieldValue::Bytes(bytes)) => match text_from_utf8(bytes.as_slice()) {
                    Ok(text) => Some(text),
                    Err(_) => None,
                },
                _ => None,
            };
        }
        i = i + 1;
    }
    assert(views(list@).take(i as int) =~= views(list@));
    found
}

/// The view of fields that may be missing.
pub open spec fn fields_view(list: Option<Vec<Field>>) -> Option<Seq<FieldView>> {
    match list {
        Some(l) => Some(views(l@)),
        None => None,
    }
}

fn decode_message(value: &FieldValue) -> (list: Option<Vec<Field>>)
    ensures
        fields_view(list) == message_fields(value@),
{
    match value {
        FieldValue::Bytes(bytes) => if accepts_nested(bytes.as_slice()) {
            decode_fields(bytes.as_slice())
        } else {
            None
        },
        _ => None,
    }
}

fn join_fields(earlier: Vec<Field>, later: Vec<Field>) -> (joined: Vec<Field>)
    ensures
        views(joined@) == views(earlier@) + views(later@),
{
    let ghost expected = views(earlier@) + views(later@);
    let mut joined = earlier;
    let mut moved = later;
    joined.append(&mut moved);
    assert(views(joined@) =~= expected);
    joined
}

/// Reads the fields of the message in the field `tag`.
pub fn get_nested(list: &Vec<Field>, tag: u32) -> (found: Option<Option<Vec<Field>>>)
    ensures
        match found {
            Some(inner) => nested(views(list@), tag) == Some(fields_view(inner)),
            None => nested(views(list@), tag) is None,
        },
{
    let mut found: Option<Vec<Field>> = None;
    let mut i: usize = 0;
    let mut failed = false;
    assert(views(list@).take(0) =~= Seq::<FieldView>::empty());
    while i < list.len()
        invariant
            i <= list@.len(),
            nested(views(list@).take(i as int), tag) == (if failed {
                None
            } else {
                Some(fields_view(found))
            }),
        decreases list@.len() - i,
    {
        proof {
            lemma_prefix(list@, i as int);
        }
        if list[i].tag == tag {
            match decode_message(&list[i].value) {
                None => {
                    failed = true;
                },
                Some(later) => {
                    found = match found {
                        Some(earlier) => Some(join_fields(earlier, later)),
                        None => Some(later),
                    };
                },
            }
        }
        i = i + 1;
    }
    assert(views(list@).take(i as int) =~= views(list@));
    if failed {
        None
    } else {
        Some(found)
    }
}

/// The view of the tag and the fields of the metadata.
pub open spec fn member_view(member: Option<(u32, Vec<Field>)>) -> Option<(u32, Seq<FieldView>)> {
    match member {
        Some((tag, inner)) => Some((tag, views(inner@))),
        None => None,
    }
}

fn decode_member(tag: u32, value: &FieldValue) -> (list: Option<Vec<Field>>)
    ensures
        fields_view(list) == member_fields(tag, value@),
{
    let list = decode_message(value)?;
    if get_text(&list, ID).is_none() {
        return None;
    }
    if tag == REPL_ID && get_text(&list, SOURCE_REPL).is_none() {
        return None;
    }
    Some(list)
}

/// Reads the tag and the fields of the metadata.
pub fn get_member(list: &Vec<Field>) -> (found: Option<Option<(u32, Vec<Field>)>>)
    ensures
        match found {
            Some(inner) => member(views(list@)) == Some(member_view(inner)),
            None => member(views(list@)) is None,
        },
{
    let mut found: Option<(u32, Vec<Field>)> = None;
    let mut i: usize = 0;
    let mut failed = false;
    assert(views(list@).take(0) =~= Seq::<FieldView>::empty());
    while i < list.len()
        invariant
            i <= list@.len(),
            member(views(list@).take(i as int)) == (if failed {
                None
            } else {
                Some(member_view(found))
            }),
        decreases list@.len() - i,
    {
        proof {
            lemma_prefix(list@, i as int);
        }
        let tag: u32 = list[i].tag;
        if tag == REPL || tag == REPL_ID {
            match decode_member(tag, &list[i].value) {
                None => {
                    failed = true;
                },
                Some(later) => {
                    found = match found {
                        Some((chosen, earlier)) => if chosen == tag {
                            Some((tag, join_fields(earlier, later)))
                        } else {
                            Some((tag, later))
                        },
                        None => Some((tag, later)),
                    };
                },
            }
        }
        i = i + 1;
    }
    assert(views(list@).take(i as int) =~= views(list@));
    if failed {
        None
    } else {
        Some(found)
    }
}

/// Reads the point in time in the field `tag`.
pub fn get_timestamp(list: &Vec<Field>, tag: u32) -> (found: Option<Option<Timestamp>>)
    ensures
        found == timestamp(views(list@), tag),
{
    match get_nested(list, tag)? {
        None => Some(None),
        Some(inner) => {
            let seconds: u64 = get_number(&inner, SECONDS)?;
            let nanos: u64 = get_number(&inner, NANOS)?;
            Some(Some(Timestamp { seconds: seconds as i64, nanos: nanos as i32 }))
        },
    }
}

/// Decodes the footer of a token, which names the key that the token was signed with.
pub fn decode_key_id(bytes: &[u8]) -> (id: Option<String>)
    ensures
        text_view(id) == key_id(bytes@),
{
    let list = decode_fields(bytes)?;
    get_text(&list, KEY_ID)
}

impl ReplToken {
    /// Decodes a token.
    pub fn decode(bytes: &[u8]) -> (token: Option<ReplToken>)
        ensures
            match token {
                Some(t) => repl_token(bytes@) == Some(t@),
                None => repl_token(bytes@) is None,
            },
    {
        let list = decode_fields(bytes)?;
        let iat = get_timestamp(&list, IAT)?;
        let exp = get_timestamp(&list, EXP)?;
        let cluster = get_text(&list, CLUSTER)?;
        let metadata = match get_member(&list)? {
            None => None,
            Some((tag, inner)) => {
                let id = get_text(&inner, ID)?;
                if tag == REPL {
                    Some(Metadata::Repl(Repl { id }))
                } else {
                    let source_repl = get_text(&inner, SOURCE_REPL)?;
                    Some(Metadata::Id(ReplId { id, source_repl }))
                }
            },
        };
        Some(ReplToken { iat, exp, cluster, metadata })
    }
}

} // verus!
