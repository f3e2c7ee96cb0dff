//! The wire format of protocol buffers: a message is a run of fields, each of them a key, which
//! holds the field's tag and the form of its value, and the value.

use vstd::prelude::*;
use vstd::slice::{slice_subrange, slice_to_vec};

use crate::outside::{decode_varint, field_skipped, group_skipped, skip_field};

verus! {

/// The value of a field. Forms that no message here uses are skipped.
pub enum FieldValue {
    Varint(u64),
    Bytes(Vec<u8>),
    Skipped,
}

/// A field of a message.
pub struct Field {
    pub tag: u32,
    pub value: FieldValue,
}

/// The mathematical counterpart of [`FieldValue`].
pub enum FieldValueView {
    Varint(u64),
    Bytes(Seq<u8>),
    Skipped,
}

/// The mathematical counterpart of [`Field`].
pub struct FieldView {
    pub tag: u32,
    pub value: FieldValueView,
}

impl View for FieldValue {
    type V = FieldValueView;

    open spec fn view(&self) -> FieldValueView {
        match self {
            FieldValue::Varint(v) => FieldValueView::Varint(*v),
            FieldValue::Bytes(bytes) => FieldValueView::Bytes(bytes@),
            FieldValue::Skipped => FieldValueView::Skipped,
        }
    }
}

impl View for Field {
    type V = FieldView;

    open spec fn view(&self) -> FieldView {
        FieldView { tag: self.tag, value: self.value@ }
    }
}

/// The views of fields.
pub open spec fn views(fields: Seq<Field>) -> Seq<FieldView> {
    Seq::new(fields.len(), |i: int| fields[i]@)
}

/// The number that starts at byte `i` of its encoding: seven bits in each byte, low bits first; a
/// byte with its high bit set is followed by another one. There are at most ten bytes, and the
/// last of ten holds one bit. `None` if the encoding is cut short or longer than that; otherwise
/// the number and where it ends.
pub open spec fn varint_from(s: Seq<u8>, i: int) -> Option<(int, int)>
    decreases 10 - i,
{
    if i >= 10 || i >= s.len() {
        None
    } else if s[i] < 0x80 {
        if i == 9 && s[i] >= 2 {
            None
        } else {
            Some((s[i] as int, i + 1))
        }
    } else {
        match varint_from(s, i + 1) {
            None => None,
            Some((v, end)) => Some((s[i] - 0x80 + 0x80 * v, end)),
        }
    }
}

/// The number at the start of `s` and the length of its encoding.
pub open spec fn varint(s: Seq<u8>) -> Option<(int, int)> {
    varint_from(s, 0)
}

/// The key at the start of `s`: the tag, the form, and what follows.
pub open spec fn key(s: Seq<u8>) -> Option<(int, int, Seq<u8>)> {
    match varint(s) {
        None => None,
        Some((v, n)) => if v > u32::MAX || v % 8 > 5 || v / 8 < 1 {
            None
        } else {
            Some((v / 8, v % 8, s.skip(n)))
        },
    }
}

/// The run of bytes at the start of `s`, behind its length, and what follows.
pub open spec fn delimited(s: Seq<u8>) -> Option<(Seq<u8>, Seq<u8>)> {
    match varint(s) {
        None => None,
        Some((v, n)) => if v > s.len() - n {
            None
        } else {
            Some((s.subrange(n, n + v), s.skip(n + v)))
        },
    }
}

/// The field at the start of `s` and what follows.
pub open spec fn next_field(s: Seq<u8>) -> Option<(FieldView, Seq<u8>)> {
    match key(s) {
        None => None,
        Some((tag, form, rest)) => if form == 0 {
            match varint(rest) {
                None => None,
                Some((v, n)) => Some(
                    (
                        FieldView { tag: tag as u32, value: FieldValueView::Varint(v as u64) },
                        rest.skip(n),
                    ),
                ),
            }
        } else if form == 2 {
            match delimited(rest) {
                None => None,
                Some((bytes, after)) => Some(
                    (FieldView { tag: tag as u32, value: FieldValueView::Bytes(bytes) }, after),
                ),
            }
        } else {
            match (if form == 3 {
                group_skipped(tag as u32, rest)
            } else {
                field_skipped(form, rest)
            }) {
                None => None,
                Some(after) => Some(
                    (FieldView { tag: tag as u32, value: FieldValueView::Skipped }, after),
                ),
            }
        },
    }
}

/// All the fields of the message `s`. `None` if there is a malformed one among them.
pub open spec fn fields(s: Seq<u8>) -> Option<Seq<FieldView>>
    decreases s.len(),
{
    if s.len() == 0 {
        Some(Seq::empty())
    } else {
        match next_field(s) {
            None => None,
            Some((field, rest)) => if rest.len() >= s.len() {
                None
            } else {
                match fields(rest) {
                    None => None,
                    Some(others) => Some(seq![field] + others),
                }
            },
        }
    }
}

proof fn lemma_varint_from_bounds(s: Seq<u8>, i: int)
    requires
        0 <= i,
    ensures
        varint_from(s, i) matches Some((v, end)) ==> 0 <= v && i < end <= s.len() && end <= 10,
    decreases 10 - i,
{
    if i < 10 && i < s.len() && s[i] >= 0x80 {
        lemma_varint_from_bounds(s, i + 1);
    }
}

/// Decodes the field at the start of `bytes`.
fn decode_field(bytes: &[u8]) -> (decoded: Option<(Field, &[u8])>)
    ensures
        match decoded {
            Some((field, rest)) => next_field(bytes@) == Some((field@, rest@)) && rest@.len()
                < bytes@.len(),
            None => next_field(bytes@) is None,
        },
{
    proof {
        lemma_varint_from_bounds(bytes@, 0);
    }
    let (v, rest) = decode_varint(bytes)?;
    if v > u32::MAX as u64 {
        return None;
    }
    let form: u64 = v % 8;
    let tag: u32 = (v / 8) as u32;
    if form > 5 || tag < 1 {
        return None;
    }
    proof {
        lemma_varint_from_bounds(rest@, 0);
    }
    if form == 0 {
        let (v, rest) = decode_varint(rest)?;
        Some((Field { tag, value: FieldValue::Varint(v) }, rest))
    } else if form == 2 {
        let ghost start = rest@;
        let (length, rest) = decode_varint(rest)?;
        if length > rest.len() as u64 {
            return None;
        }
        let value = slice_to_vec(slice_subrange(rest, 0, length as usize));
        let after = slice_subrange(rest, length as usize, rest.len());
        proof {
            let n = start.len() - rest@.len();
            assert(value@ =~= start.subrange(n, n + length));
            assert(after@ =~= start.skip(n + length));
        }
        Some((Field { tag, value: FieldValue::Bytes(value) }, after))
    } else {
        let rest = skip_field(form, tag, rest)?;
        Some((Field { tag, value: FieldValue::Skipped }, rest))
    }
}

/// Decodes all the fields of a message.
pub fn decode_fields(bytes: &[u8]) -> (decoded: Option<Vec<Field>>)
    ensures
        match decoded {
            Some(list) => fields(bytes@) == Some(views(list@)),
            None => fields(bytes@) is None,
        },
{
    let mut list: Vec<Field> = Vec::new();
    let mut rest: &[u8] = bytes;
    assert(views(list@) =~= Seq::<FieldView>::empty());
    while rest.len() > 0
        invariant
            fields(bytes@) == (match fields(rest@) {
                Some(others) => Some(views(list@) + others),
                None => None,
            }),
        decreases rest@.len(),
    {
        match decode_field(rest) {
            None => {
                return None;
            },
            Some((field, after)) => {
                let ghost before = views(list@);
                list.push(field);
                assert(views(list@) =~= before.push(field@));
                proof {
                    match fields(after@) {
                        Some(others) => {
                            assert(before + (seq![field@] + others) =~= before.push(field@)
                                + others);
                        },
                        None => {},
                    }
                }
                rest = after;
            },
        }
    }
    assert(views(list@) + Seq::<FieldView>::empty() =~= views(list@));
    Some(list)
}

} // verus!
