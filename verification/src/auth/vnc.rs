//! The challenge and response of VNC authentication.

use vstd::prelude::*;
use vstd::slice::slice_subrange;
use vstd::utf8::encode_utf8;

use crate::outside::{des_encrypt_block, des_encrypted};

verus! {

/// The number of bytes in a block, and in a key.
pub const BLOCK: usize = 8;

/// The bits of `b` in the opposite order.
pub open spec fn reversed(b: u8) -> u8 {
    (b & 1) << 7 | (b & 2) << 5 | (b & 4) << 3 | (b & 8) << 1 | (b & 16) >> 1 | (b & 32) >> 3 | (b
        & 64) >> 5 | (b & 128) >> 7
}

/// The key that a password stands for: its first 8 bytes, filled up with zeroes, each of them with
/// its bits in the opposite order.
pub open spec fn vnc_key(password: Seq<char>) -> Seq<u8> {
    let bytes = encode_utf8(password);
    Seq::new(
        BLOCK as nat,
        |i: int|
            if i < bytes.len() {
                reversed(bytes[i])
            } else {
                0u8
            },
    )
}

/// `data` with each of its blocks encrypted on its own.
pub open spec fn encrypted_blocks(key: Seq<u8>, data: Seq<u8>) -> Seq<u8>
    decreases data.len(),
{
    if data.len() < BLOCK {
        data
    } else {
        des_encrypted(key, data.take(BLOCK as int)) + encrypted_blocks(
            key,
            data.skip(BLOCK as int),
        )
    }
}

/// Reverses the bits of a byte.
pub fn reverse_bits(b: u8) -> (r: u8)
    ensures
        r == reversed(b),
{
    let mut r: u8 = 0;
    let mut x: u8 = b;
    let mut i: u8 = 0;
    assert(0u8 == ((reversed(b) as u16) >> 8) as u8 && b == b >> 0) by (bit_vector);
    while i < 8
        invariant
            i <= 8,
            r == ((reversed(b) as u16) >> ((8 - i) as u16)) as u8,
            x == b >> i,
        decreases 8 - i,
    {
        assert(i < 8 && r == ((reversed(b) as u16) >> ((8 - i) as u16)) as u8 && x == b >> i ==> (r
            << 1) | (x & 1) == ((reversed(b) as u16) >> ((7 - i) as u16)) as u8 && x >> 1 == b >> (
        (i + 1) as u8)) by (bit_vector);
        r = (r << 1) | (x & 1);
        x = x >> 1;
        i = i + 1;
    }
    assert(((reversed(b) as u16) >> 0) as u8 == reversed(b)) by (bit_vector);
    r
}

/// The key that a password stands for.
pub fn vnc_des_key(password: &str) -> (key: Vec<u8>)
    ensures
        key@ == vnc_key(password@),
{
    let bytes: &[u8] = password.as_bytes();
    let mut key: Vec<u8> = Vec::new();
    while key.len() < BLOCK
        invariant
            key@.len() <= BLOCK,
            bytes@ == encode_utf8(password@),
            forall|i: int| 0 <= i < key@.len() ==> #[trigger] key@[i] == vnc_key(password@)[i],
        decreases BLOCK - key@.len(),
    {
        let i: usize = key.len();
        if i < bytes.len() {
            key.push(reverse_bits(bytes[i]));
        } else {
            key.push(0);
        }
    }
    key
}

proof fn lemma_encrypted_blocks_extend(key: Seq<u8>, data: Seq<u8>, n: int)
    requires
        0 <= n,
        n % 8 == 0,
        n + 8 <= data.len(),
    ensures
        encrypted_blocks(key, data.take(n + 8)) == encrypted_blocks(key, data.take(n))
            + des_encrypted(key, data.subrange(n, n + 8)),
    decreases n,
{
    if n == 0 {
        assert(data.take(8).take(8) =~= data.subrange(0, 8));
        assert(data.take(8).skip(8) =~= Seq::<u8>::empty());
        assert(data.take(0) =~= Seq::<u8>::empty());
        let block = des_encrypted(key, data.subrange(0, 8));
        assert(block + Seq::<u8>::empty() =~= Seq::<u8>::empty() + block);
    } else {
        let rest = data.skip(8);
        lemma_encrypted_blocks_extend(key, rest, n - 8);
        assert(data.take(n + 8).take(8) =~= data.take(n).take(8));
        assert(data.take(n + 8).skip(8) =~= rest.take(n));
        assert(data.take(n).skip(8) =~= rest.take(n - 8));
        assert(rest.subrange(n - 8, n) =~= data.subrange(n, n + 8));
        let first = des_encrypted(key, data.take(8));
        let middle = encrypted_blocks(key, rest.take(n - 8));
        let last = des_encrypted(key, data.subrange(n, n + 8));
        assert(data.take(n).take(8) =~= data.take(8));
        assert(first + (middle + last) =~= (first + middle) + last);
    }
}

/// Encrypts a buffer with the password acting as a DES key, compatible with VNC authentication.
/// The key is generated by truncating the password to 8 bytes (or extending it to 8 bytes, filling
/// with zeroes), and reversing the bits of each byte of the password.
pub fn vnc_des_encrypt(password: &str, buf: &mut [u8])
    requires
        old(buf)@.len() % 8 == 0,
    ensures
        final(buf)@ == encrypted_blocks(vnc_key(password@), old(buf)@),
        final(buf)@.len() == old(buf)@.len(),
{
    let key: Vec<u8> = vnc_des_key(password);
    let n: usize = buf.len();
    let mut i: usize = 0;
    let ghost data = buf@;
    while i < n
        invariant
            i <= n,
            i % 8 == 0,
            n % 8 == 0,
            n == data.len(),
            n == buf@.len(),
            key@ == vnc_key(password@),
            buf@.take(i as int) == encrypted_blocks(key@, data.take(i as int)),
            buf@.skip(i as int) == data.skip(i as int),
        decreases n - i,
    {
        let block: Vec<u8> = des_encrypt_block(key.as_slice(), slice_subrange(buf, i, i + 8));
        let ghost before = buf@;
        assert(before.subrange(i as int, i + 8) =~= data.subrange(i as int, i + 8)) by {
            assert(forall|k: int|
                0 <= k < 8 ==> #[trigger] before[i + k] == before.skip(i as int)[k]);
            assert(forall|k: int| 0 <= k < 8 ==> #[trigger] data[i + k] == data.skip(i as int)[k]);
        }
        let mut j: usize = 0;
        while j < 8
            invariant
                j <= 8,
                i + 8 <= n,
                n == buf@.len(),
                block@.len() == 8,
                before.len() == n,
                buf@ == before.take(i as int) + block@.take(j as int) + before.skip(i + j),
            decreases 8 - j,
        {
            buf[i + j] = block[j];
            j = j + 1;
        }
        proof {
            lemma_encrypted_blocks_extend(key@, data, i as int);
            assert(buf@.take(i + 8) =~= before.take(i as int) + block@);
            assert(buf@.skip(i + 8) =~= before.skip(i as int).skip(8));
            assert(data.skip(i + 8) =~= data.skip(i as int).skip(8));
        }
        i = i + 8;
    }
    assert(buf@.take(n as int) =~= buf@);
    assert(data.take(n as int) =~= data);
}

/// Bit `i` of a reversed byte is bit `7 - i` of the byte.
pub proof fn law_reversed_mirrors_bits(b: u8, i: u8)
    requires
        i < 8,
    ensures
        (reversed(b) >> i) & 1 == (b >> ((7 - i) as u8)) & 1,
{
    assert(i < 8 ==> (reversed(b) >> i) & 1 == (b >> ((7 - i) as u8)) & 1) by (bit_vector);
}

/// Reversing the bits of a byte twice gives the byte back.
pub proof fn law_reversed_is_its_own_inverse(b: u8)
    ensures
        reversed(reversed(b)) == b,
{
    assert(reversed(reversed(b)) == b) by (bit_vector);
}

/// Only the first 8 bytes of a password count: two passwords that agree there have one key.
pub proof fn law_vnc_key_is_truncated(password: Seq<char>, other: Seq<char>)
    requires
        encode_utf8(password).len() >= BLOCK,
        encode_utf8(other).len() >= BLOCK,
        encode_utf8(password).take(BLOCK as int) == encode_utf8(other).take(BLOCK as int),
    ensures
        vnc_key(password) == vnc_key(other),
{
    assert forall|i: int| 0 <= i < BLOCK implies vnc_key(password)[i] == vnc_key(other)[i] by {
        assert(encode_utf8(password)[i] == encode_utf8(password).take(BLOCK as int)[i]);
        assert(encode_utf8(other)[i] == encode_utf8(other).take(BLOCK as int)[i]);
    }
    assert(vnc_key(password) =~= vnc_key(other));
}

/// A key has 8 bytes; past the end of the password they are zeroes.
pub proof fn law_vnc_key_is_padded(password: Seq<char>)
    ensures
        vnc_key(password).len() == BLOCK,
        forall|i: int|
            encode_utf8(password).len() <= i < BLOCK ==> #[trigger] vnc_key(password)[i] == 0,
{
}

/// What is encrypted block by block keeps its blocks apart: the encryption of two whole runs of
/// blocks is the encryption of the one followed by that of the other.
pub proof fn law_encrypted_blocks_are_independent(key: Seq<u8>, a: Seq<u8>, b: Seq<u8>)
    requires
        a.len() % 8 == 0,
    ensures
        encrypted_blocks(key, a + b) == encrypted_blocks(key, a) + encrypted_blocks(key, b),
    decreases a.len(),
{
    if a.len() < 8 {
        assert(a + b =~= b);
        assert(a + encrypted_blocks(key, b) =~= encrypted_blocks(key, b));
    } else {
        law_encrypted_blocks_are_independent(key, a.skip(8), b);
        assert((a + b).take(8) =~= a.take(8));
        assert((a + b).skip(8) =~= a.skip(8) + b);
        let first = des_encrypted(key, a.take(8));
        let middle = encrypted_blocks(key, a.skip(8));
        let last = encrypted_blocks(key, b);
        assert(first + (middle + last) =~= (first + middle) + last);
    }
}

} // verus!
