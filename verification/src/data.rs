//! Comparing and writing bytes.

use vstd::prelude::*;
use vstd::utf8::encode_utf8_decode_utf8;

verus! {

/// The `width` lowest bytes of `n`, the highest of them first.
pub open spec fn big_endian(n: int, width: nat) -> Seq<u8>
    decreases width,
{
    if width == 0 {
        Seq::empty()
    } else {
        big_endian(n / 0x100, (width - 1) as nat).push((n % 0x100) as u8)
    }
}

/// The parts of a text between its dots.
pub open spec fn dot_parts(s: Seq<u8>) -> Seq<Seq<u8>>
    decreases s.len(),
{
    if s.len() == 0 {
        seq![Seq::empty()]
    } else {
        let before = dot_parts(s.drop_last());
        if s.last() == 0x2e {
            before.push(Seq::empty())
        } else {
            before.drop_last().push(before.last().push(s.last()))
        }
    }
}

/// The parts with a dot between each two.
pub open spec fn joined_by_dots(parts: Seq<Seq<u8>>) -> Seq<u8>
    decreases parts.len(),
{
    if parts.len() == 0 {
        Seq::empty()
    } else if parts.len() == 1 {
        parts[0]
    } else {
        joined_by_dots(parts.drop_last()).push(0x2e) + parts.last()
    }
}

/// A text is its parts with dots between them, and no part holds a dot.
pub proof fn law_dot_parts(s: Seq<u8>)
    ensures
        dot_parts(s).len() >= 1,
        joined_by_dots(dot_parts(s)) == s,
        forall|i: int| 0 <= i < dot_parts(s).len() ==> !(#[trigger] dot_parts(s)[i]).contains(0x2e),
    decreases s.len(),
{
    if s.len() > 0 {
        let b = s.last();
        let parts = dot_parts(s.drop_last());
        law_dot_parts(s.drop_last());
        if b == 0x2e {
            assert(dot_parts(s).drop_last() =~= parts);
            assert(joined_by_dots(dot_parts(s)) =~= s);
        } else {
            let longer = parts.last().push(b);
            assert(dot_parts(s).drop_last() =~= parts.drop_last());
            assert(joined_by_dots(dot_parts(s)) =~= joined_by_dots(parts).push(b)) by {
                if parts.len() > 1 {
                    let start = joined_by_dots(parts.drop_last()).push(0x2e);
                    assert(start + longer =~= (start + parts.last()).push(b));
                }
            }
            assert(joined_by_dots(dot_parts(s)) =~= s);
            assert(!longer.contains(0x2e)) by {
                assert(!parts[parts.len() - 1].contains(0x2e));
                assert(forall|k: int|
                    0 <= k < parts.last().len() ==> parts.last()[k] == longer[k]);
                if longer.contains(0x2e) {
                    let k = choose|k: int| 0 <= k < longer.len() && longer[k] == 0x2e;
                    assert(parts.last()[k] == 0x2e);
                }
            }
        }
    } else {
        assert(joined_by_dots(dot_parts(s)) =~= s);
    }
}

/// The views of byte vectors.
pub open spec fn byte_views(parts: Seq<Vec<u8>>) -> Seq<Seq<u8>> {
    Seq::new(parts.len(), |i: int| parts[i]@)
}

/// Splits a text at its dots.
pub fn split_dots(bytes: &[u8]) -> (parts: Vec<Vec<u8>>)
    ensures
        byte_views(parts@) == dot_parts(bytes@),
{
    let mut parts: Vec<Vec<u8>> = Vec::new();
    let mut part: Vec<u8> = Vec::new();
    let mut i: usize = 0;
    assert(bytes@.take(0) =~= Seq::<u8>::empty());
    assert(byte_views(parts@).push(part@) =~= seq![Seq::<u8>::empty()]);
    while i < bytes.len()
        invariant
            i <= bytes@.len(),
            byte_views(parts@).push(part@) == dot_parts(bytes@.take(i as int)),
        decreases bytes@.len() - i,
    {
        let b: u8 = bytes[i];
        let ghost before = byte_views(parts@);
        assert(bytes@.take(i + 1).drop_last() =~= bytes@.take(i as int));
        assert(before.push(part@).drop_last() =~= before);
        if b == 0x2e {
            parts.push(part);
            part = Vec::new();
            assert(byte_views(parts@) =~= dot_parts(bytes@.take(i as int)));
        } else {
            part.push(b);
        }
        i = i + 1;
    }
    assert(bytes@.take(i as int) =~= bytes@);
    parts.push(part);
    assert(byte_views(parts@) =~= dot_parts(bytes@));
    parts
}

/// Whether two slices hold the same bytes.
pub fn same_bytes(a: &[u8], b: &[u8]) -> (same: bool)
    ensures
        same == (a@ == b@),
{
    if a.len() != b.len() {
        return false;
    }
    let n: usize = a.len();
    let mut i: usize = 0;
    while i < n
        invariant
            i <= n,
            n == a@.len(),
            n == b@.len(),
            forall|k: int| 0 <= k < i ==> a@[k] == b@[k],
        decreases n - i,
    {
        if a[i] != b[i] {
            return false;
        }
        i = i + 1;
    }
    assert(a@ =~= b@);
    true
}

/// Whether two texts are the same.
pub fn same_text(a: &str, b: &str) -> (same: bool)
    ensures
        same == (a@ == b@),
{
    proof {
        encode_utf8_decode_utf8(a@);
        encode_utf8_decode_utf8(b@);
    }
    same_bytes(a.as_bytes(), b.as_bytes())
}

/// Whether a byte is among others.
pub fn contains_byte(bytes: &[u8], b: u8) -> (found: bool)
    ensures
        found == bytes@.contains(b),
{
    let mut i: usize = 0;
    while i < bytes.len()
        invariant
            i <= bytes@.len(),
            forall|k: int| 0 <= k < i ==> bytes@[k] != b,
        decreases bytes@.len() - i,
    {
        if bytes[i] == b {
            return true;
        }
        i = i + 1;
    }
    false
}

/// The number of values that `width` bytes can hold.
pub open spec fn pow256(width: nat) -> int
    decreases width,
{
    if width == 0 {
        1
    } else {
        0x100 * pow256((width - 1) as nat)
    }
}

/// A number takes as many bytes as it is given.
pub proof fn lemma_big_endian_len(n: int, width: nat)
    ensures
        big_endian(n, width).len() == width,
    decreases width,
{
    if width > 0 {
        lemma_big_endian_len(n / 0x100, (width - 1) as nat);
    }
}

proof fn lemma_big_endian_joined(high: int, low: int, width: nat)
    requires
        0 <= high,
        0 <= low < pow256(width),
    ensures
        big_endian(high, width) + big_endian(low, width) == big_endian(
            high * pow256(width) + low,
            width + width,
        ),
{
    lemma_big_endian_split(high, low, width, width);
}

proof fn lemma_big_endian_split(high: int, low: int, over: nat, width: nat)
    requires
        0 <= high,
        0 <= low < pow256(width),
    ensures
        big_endian(high, over) + big_endian(low, width) == big_endian(
            high * pow256(width) + low,
            over + width,
        ),
    decreases width,
{
    if width == 0 {
        assert(high * pow256(0) + low == high) by (nonlinear_arith)
            requires
                pow256(0) == 1,
                low == 0,
        ;
        assert(big_endian(high, over) + big_endian(low, 0) =~= big_endian(high, over));
    } else {
        let less = (width - 1) as nat;
        let n = high * pow256(width) + low;
        assert(n == 0x100 * (high * pow256(less)) + low) by (nonlinear_arith)
            requires
                pow256(width) == 0x100 * pow256(less),
                n == high * pow256(width) + low,
        ;
        assert(n / 0x100 == high * pow256(less) + low / 0x100);
        assert(n % 0x100 == low % 0x100);
        lemma_big_endian_split(high, low / 0x100, over, less);
        assert((over + width - 1) as nat == over + less);
        assert(big_endian(high, over) + big_endian(low, width) =~= (big_endian(high, over)
            + big_endian(low / 0x100, less)).push((low % 0x100) as u8));
    }
}

/// `output` with its start overwritten by `data`, as far as there is room for it.
pub open spec fn overlaid(output: Seq<u8>, data: Seq<u8>) -> Seq<u8> {
    if data.len() <= output.len() {
        data + output.skip(data.len() as int)
    } else {
        data.take(output.len() as int)
    }
}

/// Overwrites the start of `output` with `data`, as far as there is room for it.
pub fn copy_to_start(output: &mut [u8], data: &[u8])
    ensures
        final(output)@ == overlaid(old(output)@, data@),
{
    let n: usize = if data.len() <= output.len() {
        data.len()
    } else {
        output.len()
    };
    let mut i: usize = 0;
    while i < n
        invariant
            i <= n,
            n <= data@.len(),
            n <= output@.len(),
            output@.len() == old(output)@.len(),
            output@ == data@.take(i as int) + old(output)@.skip(i as int),
        decreases n - i,
    {
        output[i] = data[i];
        i = i + 1;
        assert(output@ =~= data@.take(i as int) + old(output)@.skip(i as int));
    }
    assert(output@ =~= overlaid(old(output)@, data@));
}

/// Appends bytes.
pub fn push_slice(out: &mut Vec<u8>, bytes: &[u8])
    ensures
        final(out)@ == old(out)@ + bytes@,
{
    out.extend_from_slice(bytes);
    assert(out@ =~= old(out)@ + bytes@);
}

/// Appends the 2 bytes of a number, the higher one first.
pub fn push_u16(out: &mut Vec<u8>, n: u16)
    ensures
        final(out)@ == old(out)@ + big_endian(n as int, 2),
{
    out.push((n / 0x100) as u8);
    out.push((n % 0x100) as u8);
    assert(big_endian(n as int, 2) =~= seq![(n / 0x100) as u8, (n % 0x100) as u8]) by {
        reveal_with_fuel(big_endian, 3);
    }
}

/// Appends the 4 bytes of a number, the highest one first.
pub fn push_u32(out: &mut Vec<u8>, n: u32)
    ensures
        final(out)@ == old(out)@ + big_endian(n as int, 4),
{
    let high: u16 = (n / 0x1_0000) as u16;
    let low: u16 = (n % 0x1_0000) as u16;
    push_u16(out, high);
    push_u16(out, low);
    proof {
        reveal_with_fuel(pow256, 3);
        lemma_big_endian_joined(high as int, low as int, 2);
        assert(high * pow256(2) + low == n) by (nonlinear_arith)
            requires
                pow256(2) == 0x1_0000,
                high * 0x1_0000 + low == n,
        ;
        assert(out@ =~= old(out)@ + (big_endian(high as int, 2) + big_endian(low as int, 2)));
    }
}

/// Appends the 8 bytes of a number, the highest one first.
pub fn push_u64(out: &mut Vec<u8>, n: u64)
    ensures
        final(out)@ == old(out)@ + big_endian(n as int, 8),
{
    let high: u32 = (n / 0x1_0000_0000) as u32;
    let low: u32 = (n % 0x1_0000_0000) as u32;
    push_u32(out, high);
    push_u32(out, low);
    proof {
        reveal_with_fuel(pow256, 5);
        lemma_big_endian_joined(high as int, low as int, 4);
        assert(high * pow256(4) + low == n) by (nonlinear_arith)
            requires
                pow256(4) == 0x1_0000_0000,
                high * 0x1_0000_0000 + low == n,
        ;
        assert(out@ =~= old(out)@ + (big_endian(high as int, 4) + big_endian(low as int, 4)));
    }
}

} // verus!
