//! The backup codec: one entry to one transfer record and back.
//!
//! A sealed record is `nonce ‖ ciphertext ‖ tag`. The ciphertext is the
//! entry's 64 bytes under chained-block encryption with the nonce as
//! initialization vector; the tag is the last block of the ciphertext
//! encrypted once more in the same way. A plain record is the entry's 64
//! bytes as they are.

use crate::buffer::{buffer_as_slice, buffer_clear, buffer_contents, buffer_extend, buffer_new};
use crate::cipher::{
    aes256_decrypt_block,
    aes256_encrypt_block,
    decrypt_block,
    decrypts_back,
    encrypt_block,
    sole_preimage,
};
use crate::password::{lemma_array_string_ext, ArrayString, PasswordItem};
use vstd::prelude::*;
use crate::bytes::{same_bytes, write_at};
use vstd::slice::slice_subrange;

verus! {

/// Length in bytes of a nonce.
pub const NONCE_LEN: usize = 16;

/// Length in bytes of an entry laid out as name, then password.
pub const ENTRY_LEN: usize = 64;

/// Length in bytes of a tag.
pub const TAG_LEN: usize = 16;

/// Length in bytes of a sealed record.
pub const RECORD_LEN: usize = 96;

/// A sealed record did not carry the tag that belongs to its ciphertext.
#[derive(Clone, Copy, Debug, PartialEq, Eq)]
pub struct AuthFailure;

/// The 64 bytes of an entry: the name first, the password after it.
pub open spec fn entry_bytes(item: PasswordItem) -> Seq<u8> {
    item.name@ + item.pass@
}

/// The entry whose 64 bytes are `bytes`.
pub open spec fn entry_of(bytes: Seq<u8>) -> PasswordItem {
    PasswordItem {
        name: ArrayString::of(bytes.subrange(0, 32)),
        pass: ArrayString::of(bytes.subrange(32, 64)),
    }
}

/// Byte-wise exclusive or of `a` with the bytes of `b` at the same places.
pub open spec fn xor_bytes(a: Seq<u8>, b: Seq<u8>) -> Seq<u8> {
    Seq::new(a.len(), |i: int| a[i] ^ b[i])
}

/// The `k`-th 16-byte block of `data`.
pub open spec fn block_of(data: Seq<u8>, k: nat) -> Seq<u8> {
    data.subrange(16 * (k as int), 16 * (k as int) + 16)
}

/// The chaining value after `k` blocks of `data` were encrypted: the
/// initialization vector for `k == 0`, the `k`-th cipher block after that.
pub open spec fn cbc_chain(key: Seq<u8>, iv: Seq<u8>, data: Seq<u8>, k: nat) -> Seq<u8>
    decreases k, 0nat,
{
    if k == 0 {
        iv
    } else {
        aes256_encrypt_block(key, cbc_input(key, iv, data, (k - 1) as nat))@
    }
}

/// What the cipher is applied to for block `k`: the block, masked with the
/// chaining value before it.
pub open spec fn cbc_input(key: Seq<u8>, iv: Seq<u8>, data: Seq<u8>, k: nat) -> Seq<u8>
    decreases k, 1nat,
{
    xor_bytes(block_of(data, k), cbc_chain(key, iv, data, k))
}

/// Chained-block encryption of `data`, whose length is a multiple of 16.
pub open spec fn cbc_encrypt(key: Seq<u8>, iv: Seq<u8>, data: Seq<u8>) -> Seq<u8> {
    Seq::new(data.len(), |i: int| cbc_chain(key, iv, data, (i / 16 + 1) as nat)[i % 16])
}

/// What masks block `k` of a ciphertext: the initialization vector for the
/// first block, the cipher block before it for the others.
pub open spec fn cbc_mask(iv: Seq<u8>, data: Seq<u8>, k: nat) -> Seq<u8> {
    if k == 0 {
        iv
    } else {
        block_of(data, (k - 1) as nat)
    }
}

/// The `k`-th block of the plaintext that `data` decrypts to.
pub open spec fn cbc_plain_block(key: Seq<u8>, iv: Seq<u8>, data: Seq<u8>, k: nat) -> Seq<u8> {
    xor_bytes(aes256_decrypt_block(key, block_of(data, k))@, cbc_mask(iv, data, k))
}

/// Chained-block decryption of `data`, whose length is a multiple of 16.
pub open spec fn cbc_decrypt(key: Seq<u8>, iv: Seq<u8>, data: Seq<u8>) -> Seq<u8> {
    Seq::new(data.len(), |i: int| cbc_plain_block(key, iv, data, (i / 16) as nat)[i % 16])
}

/// The tag of a 64-byte ciphertext: the last of the four blocks that come
/// out when the ciphertext is encrypted again under the same key and nonce.
pub open spec fn tag_of(key: Seq<u8>, nonce: Seq<u8>, ciphertext: Seq<u8>) -> Seq<u8> {
    cbc_chain(key, nonce, ciphertext, 4)
}

/// The sealed record of `item` under `key` and `nonce`.
pub open spec fn sealed(item: PasswordItem, key: Seq<u8>, nonce: Seq<u8>) -> Seq<u8> {
    let ciphertext = cbc_encrypt(key, nonce, entry_bytes(item));
    nonce + ciphertext + tag_of(key, nonce, ciphertext)
}

/// The nonce that a sealed record carries.
pub open spec fn nonce_of(record: Seq<u8>) -> Seq<u8> {
    record.subrange(0, 16)
}

/// The ciphertext that a sealed record carries.
pub open spec fn ciphertext_of(record: Seq<u8>) -> Seq<u8> {
    record.subrange(16, 80)
}

/// The tag that a sealed record carries.
pub open spec fn carried_tag(record: Seq<u8>) -> Seq<u8> {
    record.subrange(80, 96)
}

/// The record carries the tag that belongs to its ciphertext.
pub open spec fn authentic(record: Seq<u8>, key: Seq<u8>) -> bool {
    carried_tag(record) == tag_of(key, nonce_of(record), ciphertext_of(record))
}

/// `bytes` with bit number `bit` inverted, bit 0 being the lowest bit of the
/// first byte.
pub open spec fn flip_bit(bytes: Seq<u8>, bit: int) -> Seq<u8> {
    bytes.update(bit / 8, bytes[bit / 8] ^ (1u8 << ((bit % 8) as u8)))
}

/// Exclusive or with the same byte twice gives the byte back.
proof fn lemma_xor_twice(a: u8, b: u8)
    ensures
        (a ^ b) ^ b == a,
        a ^ b == b ^ a,
{
    assert((a ^ b) ^ b == a) by (bit_vector);
    assert(a ^ b == b ^ a) by (bit_vector);
}

/// Two bytes that mask to the same byte are the same byte.
proof fn lemma_xor_cancel(a: u8, b: u8, c: u8)
    requires
        a ^ c == b ^ c,
    ensures
        a == b,
{
    assert(a ^ c == b ^ c ==> a == b) by (bit_vector);
}

/// Inverting one bit of a byte changes the byte.
proof fn lemma_flip_changes(a: u8, s: u8)
    requires
        s < 8,
    ensures
        a ^ (1u8 << s) != a,
{
    assert(s < 8 ==> a ^ (1u8 << s) != a) by (bit_vector);
}

/// Masking twice with the same mask gives the block back.
proof fn lemma_xor_bytes_twice(a: Seq<u8>, m: Seq<u8>)
    ensures
        xor_bytes(xor_bytes(a, m), m) == a,
{
    assert forall|i: int| 0 <= i < a.len() implies xor_bytes(xor_bytes(a, m), m)[i] == a[i] by {
        lemma_xor_twice(a[i], m[i]);
    }
    assert(xor_bytes(xor_bytes(a, m), m) =~= a);
}

/// Different blocks stay different under the same mask.
proof fn lemma_xor_bytes_left(a: Seq<u8>, b: Seq<u8>, m: Seq<u8>)
    requires
        a.len() == b.len(),
        a != b,
    ensures
        xor_bytes(a, m) != xor_bytes(b, m),
{
    if xor_bytes(a, m) == xor_bytes(b, m) {
        assert forall|i: int| 0 <= i < a.len() implies a[i] == b[i] by {
            assert(xor_bytes(a, m)[i] == xor_bytes(b, m)[i]);
            lemma_xor_cancel(a[i], b[i], m[i]);
        }
        assert(a =~= b);
    }
}

/// Different masks of a block's length give different results on the block.
proof fn lemma_xor_bytes_right(a: Seq<u8>, m: Seq<u8>, n: Seq<u8>)
    requires
        m.len() == a.len(),
        n.len() == a.len(),
        m != n,
    ensures
        xor_bytes(a, m) != xor_bytes(a, n),
{
    if xor_bytes(a, m) == xor_bytes(a, n) {
        assert forall|i: int| 0 <= i < a.len() implies m[i] == n[i] by {
            assert(xor_bytes(a, m)[i] == xor_bytes(a, n)[i]);
            lemma_xor_twice(a[i], m[i]);
            lemma_xor_twice(a[i], n[i]);
            lemma_xor_cancel(m[i], n[i], a[i]);
        }
        assert(m =~= n);
    }
}

/// The chaining value after `k` blocks depends on those `k` blocks only.
proof fn lemma_chain_prefix(key: Seq<u8>, iv: Seq<u8>, a: Seq<u8>, b: Seq<u8>, k: nat)
    requires
        forall|m: nat| m < k ==> block_of(a, m) == block_of(b, m),
    ensures
        cbc_chain(key, iv, a, k) == cbc_chain(key, iv, b, k),
    decreases k,
{
    if k > 0 {
        lemma_chain_prefix(key, iv, a, b, (k - 1) as nat);
        assert(block_of(a, (k - 1) as nat) == block_of(b, (k - 1) as nat));
    }
}

/// Where two 64-byte texts differ in block `j` and in no other block, and the
/// cipher maps no second block to what the chain inputs of `b` encrypt to,
/// the chaining values after any `k > j` blocks differ.
proof fn lemma_chain_diverges(key: Seq<u8>, iv: Seq<u8>, a: Seq<u8>, b: Seq<u8>, j: nat, k: nat)
    requires
        a.len() == 64,
        b.len() == 64,
        j < k <= 4,
        block_of(a, j) != block_of(b, j),
        forall|m: nat| m < 4 && m != j ==> block_of(a, m) == block_of(b, m),
        forall|m: nat| m < 4 ==> sole_preimage(key, #[trigger] cbc_input(key, iv, b, m)),
    ensures
        cbc_chain(key, iv, a, k) != cbc_chain(key, iv, b, k),
    decreases k,
{
    let m = (k - 1) as nat;
    let input_a = cbc_input(key, iv, a, m);
    let input_b = cbc_input(key, iv, b, m);
    if m == j {
        lemma_chain_prefix(key, iv, a, b, j);
        lemma_xor_bytes_left(block_of(a, j), block_of(b, j), cbc_chain(key, iv, b, j));
    } else {
        lemma_chain_diverges(key, iv, a, b, j, m);
        assert(block_of(a, m) == block_of(b, m));
        lemma_xor_bytes_right(block_of(a, m), cbc_chain(key, iv, a, m), cbc_chain(key, iv, b, m));
    }
    assert(input_a != input_b);
    assert(sole_preimage(key, input_b));
    assert(input_a.len() == 16);
    if aes256_encrypt_block(key, input_a)@ == aes256_encrypt_block(key, input_b)@ {
        assert(aes256_encrypt_block(key, input_a) =~= aes256_encrypt_block(key, input_b));
    }
}

/// Where one 64-byte text is chained from two different initialization
/// vectors, and the cipher maps no second block to what the chain inputs
/// under `iv_b` encrypt to, the chaining values differ after any number of
/// blocks.
proof fn lemma_chain_diverges_from_start(
    key: Seq<u8>,
    iv_a: Seq<u8>,
    iv_b: Seq<u8>,
    data: Seq<u8>,
    k: nat,
)
    requires
        data.len() == 64,
        iv_a.len() == 16,
        iv_b.len() == 16,
        iv_a != iv_b,
        k <= 4,
        forall|m: nat| m < 4 ==> sole_preimage(key, #[trigger] cbc_input(key, iv_b, data, m)),
    ensures
        cbc_chain(key, iv_a, data, k) != cbc_chain(key, iv_b, data, k),
    decreases k,
{
    if k > 0 {
        let m = (k - 1) as nat;
        let input_a = cbc_input(key, iv_a, data, m);
        let input_b = cbc_input(key, iv_b, data, m);
        lemma_chain_diverges_from_start(key, iv_a, iv_b, data, m);
        lemma_xor_bytes_right(
            block_of(data, m),
            cbc_chain(key, iv_a, data, m),
            cbc_chain(key, iv_b, data, m),
        );
        assert(input_a != input_b);
        assert(sole_preimage(key, input_b));
        assert(input_a.len() == 16);
        if aes256_encrypt_block(key, input_a)@ == aes256_encrypt_block(key, input_b)@ {
            assert(aes256_encrypt_block(key, input_a) =~= aes256_encrypt_block(key, input_b));
        }
    }
}

/// Decrypting what chained-block encryption produced gives the plaintext
/// back, where block decryption inverts block encryption on each cipher block.
proof fn lemma_decrypt_encrypted(key: Seq<u8>, iv: Seq<u8>, plain: Seq<u8>)
    requires
        plain.len() == 64,
        forall|m: nat|
            m < 4 ==> decrypts_back(key, #[trigger] block_of(cbc_encrypt(key, iv, plain), m)),
    ensures
        cbc_decrypt(key, iv, cbc_encrypt(key, iv, plain)) == plain,
{
    let cipher = cbc_encrypt(key, iv, plain);
    assert forall|m: nat| m < 4 implies #[trigger] block_of(cipher, m) == cbc_chain(
        key,
        iv,
        plain,
        m + 1,
    ) && cbc_plain_block(key, iv, cipher, m) == block_of(plain, m) by {
        assert forall|i: int| 0 <= i < 16 implies block_of(cipher, m)[i] == cbc_chain(
            key,
            iv,
            plain,
            m + 1,
        )[i] by {
            assert((16 * m + i) / 16 == m && (16 * m + i) % 16 == i);
        }
        assert(block_of(cipher, m) =~= cbc_chain(key, iv, plain, m + 1));
        let input = cbc_input(key, iv, plain, m);
        assert(decrypts_back(key, block_of(cipher, m)));
        assert(aes256_encrypt_block(key, input)@ == block_of(cipher, m));
        assert(aes256_decrypt_block(key, block_of(cipher, m))@ == input);
        if m > 0 {
            let before = (m - 1) as nat;
            assert forall|i: int| 0 <= i < 16 implies block_of(cipher, before)[i] == cbc_chain(
                key,
                iv,
                plain,
                m,
            )[i] by {
                assert((16 * before + i) / 16 == before && (16 * before + i) % 16 == i);
            }
            assert(block_of(cipher, before) =~= cbc_chain(key, iv, plain, m));
        }
        assert(cbc_mask(iv, cipher, m) == cbc_chain(key, iv, plain, m));
        lemma_xor_bytes_twice(block_of(plain, m), cbc_chain(key, iv, plain, m));
    }
    assert forall|i: int| 0 <= i < 64 implies cbc_decrypt(key, iv, cipher)[i] == plain[i] by {
        let m = (i / 16) as nat;
        assert(cbc_plain_block(key, iv, cipher, m) == block_of(plain, m));
        assert(block_of(plain, m)[i % 16] == plain[16 * m + i % 16]);
    }
    assert(cbc_decrypt(key, iv, cipher) =~= plain);
}

/// Encrypting what chained-block decryption produced gives the ciphertext
/// back, where block decryption inverts block encryption on each cipher block.
proof fn lemma_encrypt_decrypted(key: Seq<u8>, iv: Seq<u8>, cipher: Seq<u8>)
    requires
        cipher.len() == 64,
        iv.len() == 16,
        forall|m: nat| m < 4 ==> decrypts_back(key, #[trigger] block_of(cipher, m)),
    ensures
        cbc_encrypt(key, iv, cbc_decrypt(key, iv, cipher)) == cipher,
{
    let plain = cbc_decrypt(key, iv, cipher);
    lemma_chain_of_decrypted(key, iv, cipher, 4);
    assert forall|i: int| 0 <= i < 64 implies cbc_encrypt(key, iv, plain)[i] == cipher[i] by {
        let m = (i / 16) as nat;
        lemma_chain_of_decrypted(key, iv, cipher, m + 1);
        assert(cbc_chain(key, iv, plain, m + 1) == block_of(cipher, m));
        assert(block_of(cipher, m)[i % 16] == cipher[16 * m + i % 16]);
    }
    assert(cbc_encrypt(key, iv, plain) =~= cipher);
}

/// Re-encrypting a decrypted ciphertext walks through the ciphertext's own
/// blocks as chaining values.
proof fn lemma_chain_of_decrypted(key: Seq<u8>, iv: Seq<u8>, cipher: Seq<u8>, k: nat)
    requires
        cipher.len() == 64,
        iv.len() == 16,
        k <= 4,
        forall|m: nat| m < 4 ==> decrypts_back(key, #[trigger] block_of(cipher, m)),
    ensures
        k > 0 ==> cbc_chain(key, iv, cbc_decrypt(key, iv, cipher), k) == block_of(
            cipher,
            (k - 1) as nat,
        ),
        cbc_chain(key, iv, cbc_decrypt(key, iv, cipher), k) == cbc_mask(iv, cipher, k),
    decreases k,
{
    if k > 0 {
        let m = (k - 1) as nat;
        let plain = cbc_decrypt(key, iv, cipher);
        lemma_chain_of_decrypted(key, iv, cipher, m);
        assert forall|i: int| 0 <= i < 16 implies block_of(plain, m)[i] == cbc_plain_block(
            key,
            iv,
            cipher,
            m,
        )[i] by {
            assert((16 * m + i) / 16 == m && (16 * m + i) % 16 == i);
        }
        assert(block_of(plain, m) =~= cbc_plain_block(key, iv, cipher, m));
        let opened = aes256_decrypt_block(key, block_of(cipher, m))@;
        lemma_xor_bytes_twice(opened, cbc_mask(iv, cipher, m));
        assert(cbc_input(key, iv, plain, m) == opened);
        assert(decrypts_back(key, block_of(cipher, m)));
    }
}

/// Copies the 64 bytes of a full buffer out of it.
fn buffer_to_array(buffer: &heapless::Vec<u8, 64>) -> (out: [u8; 64])
    requires
        buffer_contents(*buffer).len() == 64,
    ensures
        out@ == buffer_contents(*buffer),
{
    let bytes = buffer_as_slice(buffer);
    let mut out = [0u8; 64];
    let mut i: usize = 0;
    while i < 64
        invariant
            i <= 64,
            bytes@.len() == 64,
            forall|j: int| 0 <= j < i ==> out@[j] == bytes@[j],
        decreases 64 - i,
    {
        out[i] = bytes[i];
        i += 1;
    }
    assert(out@ =~= bytes@);
    out
}

/// Block `k` of `input`, masked byte by byte with `mask`.
fn masked_block(input: &[u8; 64], k: usize, mask: &[u8; 16]) -> (out: [u8; 16])
    requires
        k < 4,
    ensures
        out@ == xor_bytes(block_of(input@, k as nat), mask@),
{
    let mut out = [0u8; 16];
    let mut j: usize = 0;
    while j < 16
        invariant
            j <= 16,
            k < 4,
            forall|m: int| 0 <= m < j ==> out@[m] == input@[16 * k + m] ^ mask@[m],
        decreases 16 - j,
    {
        out[j] = input[16 * k + j] ^ mask[j];
        j += 1;
    }
    assert(out@ =~= xor_bytes(block_of(input@, k as nat), mask@));
    out
}

/// Block `k` of `input`.
fn copy_block(input: &[u8; 64], k: usize) -> (out: [u8; 16])
    requires
        k < 4,
    ensures
        out@ == block_of(input@, k as nat),
{
    let mut out = [0u8; 16];
    let mut j: usize = 0;
    while j < 16
        invariant
            j <= 16,
            k < 4,
            forall|m: int| 0 <= m < j ==> out@[m] == input@[16 * k + m],
        decreases 16 - j,
    {
        out[j] = input[16 * k + j];
        j += 1;
    }
    assert(out@ =~= block_of(input@, k as nat));
    out
}

/// Encrypts a full buffer in place, in chained-block mode. Also tells what
/// the cipher showed on the way: nothing but each chain input encrypts to the
/// cipher block that it gave.
fn cbc_encrypt_buffer(key: &[u8; 32], iv: &[u8; 16], buffer: &mut heapless::Vec<u8, 64>)
    requires
        buffer_contents(*old(buffer)).len() == 64,
    ensures
        buffer_contents(*final(buffer)) == cbc_encrypt(key@, iv@, buffer_contents(*old(buffer))),
        forall|m: nat|
            m < 4 ==> sole_preimage(
                key@,
                #[trigger] cbc_input(key@, iv@, buffer_contents(*old(buffer)), m),
            ),
{
    let ghost data = buffer_contents(*buffer);
    let input = buffer_to_array(buffer);
    buffer_clear(buffer);
    let mut prev: [u8; 16] = *iv;
    let mut k: usize = 0;
    while k < 4
        invariant
            k <= 4,
            input@ == data,
            data.len() == 64,
            prev@ == cbc_chain(key@, iv@, data, k as nat),
            buffer_contents(*buffer).len() == 16 * k,
            forall|i: int|
                0 <= i < 16 * k ==> buffer_contents(*buffer)[i] == cbc_chain(
                    key@,
                    iv@,
                    data,
                    (i / 16 + 1) as nat,
                )[i % 16],
            forall|m: nat| m < k ==> sole_preimage(key@, #[trigger] cbc_input(key@, iv@, data, m)),
        decreases 4 - k,
    {
        let masked = masked_block(&input, k, &prev);
        assert(masked@ == cbc_input(key@, iv@, data, k as nat));
        let cipher_block = encrypt_block(key, &masked);
        assert(sole_preimage(key@, masked@));
        let ghost before = buffer_contents(*buffer);
        let fit = buffer_extend(buffer, cipher_block.as_slice());
        assert(fit is Ok);
        prev = cipher_block;
        k += 1;
        assert(prev@ == cbc_chain(key@, iv@, data, k as nat));
        assert forall|i: int| 0 <= i < 16 * k implies buffer_contents(*buffer)[i] == cbc_chain(
            key@,
            iv@,
            data,
            (i / 16 + 1) as nat,
        )[i % 16] by {
            if i < 16 * (k - 1) {
                assert(buffer_contents(*buffer)[i] == before[i]);
            } else {
                assert(i / 16 + 1 == k);
                assert(buffer_contents(*buffer)[i] == cipher_block@[i - 16 * (k - 1)]);
            }
        }
    }
    assert(buffer_contents(*buffer) =~= cbc_encrypt(key@, iv@, data));
}

/// Decrypts a full buffer in place, in chained-block mode. Also tells what
/// the cipher showed on the way: on each cipher block, decryption inverted
/// encryption.
fn cbc_decrypt_buffer(key: &[u8; 32], iv: &[u8; 16], buffer: &mut heapless::Vec<u8, 64>)
    requires
        buffer_contents(*old(buffer)).len() == 64,
    ensures
        buffer_contents(*final(buffer)) == cbc_decrypt(key@, iv@, buffer_contents(*old(buffer))),
        forall|m: nat|
            m < 4 ==> decrypts_back(key@, #[trigger] block_of(buffer_contents(*old(buffer)), m)),
{
    let ghost data = buffer_contents(*buffer);
    let input = buffer_to_array(buffer);
    buffer_clear(buffer);
    let mut mask: [u8; 16] = *iv;
    let mut k: usize = 0;
    while k < 4
        invariant
            k <= 4,
            input@ == data,
            data.len() == 64,
            mask@ == cbc_mask(iv@, data, k as nat),
            buffer_contents(*buffer).len() == 16 * k,
            forall|i: int|
                0 <= i < 16 * k ==> buffer_contents(*buffer)[i] == cbc_plain_block(
                    key@,
                    iv@,
                    data,
                    (i / 16) as nat,
                )[i % 16],
            forall|m: nat| m < k ==> decrypts_back(key@, #[trigger] block_of(data, m)),
        decreases 4 - k,
    {
        let cipher_block = copy_block(&input, k);
        let opened = decrypt_block(key, &cipher_block);
        assert(decrypts_back(key@, block_of(data, k as nat)));
        let mut plain_block = [0u8; 16];
        let mut j: usize = 0;
        while j < 16
            invariant
                j <= 16,
                forall|m: int| 0 <= m < j ==> plain_block@[m] == opened@[m] ^ mask@[m],
            decreases 16 - j,
        {
            plain_block[j] = opened[j] ^ mask[j];
            j += 1;
        }
        assert(plain_block@ =~= cbc_plain_block(key@, iv@, data, k as nat));
        let ghost before = buffer_contents(*buffer);
        let fit = buffer_extend(buffer, plain_block.as_slice());
        assert(fit is Ok);
        mask = cipher_block;
        k += 1;
        assert forall|i: int| 0 <= i < 16 * k implies buffer_contents(*buffer)[i]
            == cbc_plain_block(key@, iv@, data, (i / 16) as nat)[i % 16] by {
            if i < 16 * (k - 1) {
                assert(buffer_contents(*buffer)[i] == before[i]);
            } else {
                assert(i / 16 + 1 == k);
                assert(buffer_contents(*buffer)[i] == plain_block@[i - 16 * (k - 1)]);
            }
        }
    }
    assert(buffer_contents(*buffer) =~= cbc_decrypt(key@, iv@, data));
}

/// A buffer that holds the 64 given bytes.
fn buffer_of(bytes: &[u8]) -> (buffer: heapless::Vec<u8, 64>)
    requires
        bytes@.len() == 64,
    ensures
        buffer_contents(buffer) == bytes@,
{
    let mut buffer = buffer_new();
    let fit = buffer_extend(&mut buffer, bytes);
    assert(fit is Ok);
    assert(buffer_contents(buffer) =~= bytes@);
    buffer
}

/// The plain record of an entry: its 64 bytes, unchanged.
pub fn encode_plain(item: &PasswordItem) -> (record: [u8; 64])
    ensures
        record@ == entry_bytes(*item),
{
    let mut record = [0u8; 64];
    write_at(&mut record, 0, item.name.bytes().as_slice());
    write_at(&mut record, 32, item.pass.bytes().as_slice());
    assert(record@ =~= entry_bytes(*item));
    record
}

/// The entry that a plain record holds. Every plain record holds one.
pub fn decode_plain(record: &[u8; 64]) -> (item: PasswordItem)
    ensures
        entry_bytes(item) == record@,
        item == entry_of(record@),
{
    let bytes = record.as_slice();
    let name = ArrayString::<32>::from_bytes(slice_subrange(bytes, 0, 32));
    let pass = ArrayString::<32>::from_bytes(slice_subrange(bytes, 32, 64));
    let item = PasswordItem { name, pass };
    assert(entry_bytes(item) =~= record@);
    proof {
        assert(name@ =~= record@.subrange(0, 32));
        assert(pass@ =~= record@.subrange(32, 64));
        name.lemma_of_view();
        pass.lemma_of_view();
    }
    item
}

/// An entry is determined by its 64 bytes.
pub proof fn lemma_entry_bytes_injective(a: PasswordItem, b: PasswordItem)
    requires
        entry_bytes(a) == entry_bytes(b),
    ensures
        a == b,
{
    assert(a.name@ =~= entry_bytes(a).subrange(0, 32));
    assert(b.name@ =~= entry_bytes(b).subrange(0, 32));
    assert(a.pass@ =~= entry_bytes(a).subrange(32, 64));
    assert(b.pass@ =~= entry_bytes(b).subrange(32, 64));
    lemma_array_string_ext(a.name, b.name);
    lemma_array_string_ext(a.pass, b.pass);
}

/// How a sealed record is laid out: 96 bytes, the nonce in the first 16, the
/// ciphertext in the next 64, and in the last 16 the tag of that ciphertext.
pub proof fn lemma_sealed_layout(item: PasswordItem, key: Seq<u8>, nonce: Seq<u8>)
    requires
        nonce.len() == 16,
    ensures
        sealed(item, key, nonce).len() == 96,
        nonce_of(sealed(item, key, nonce)) == nonce,
        ciphertext_of(sealed(item, key, nonce)) == cbc_encrypt(key, nonce, entry_bytes(item)),
        carried_tag(sealed(item, key, nonce)) == tag_of(
            key,
            nonce,
            cbc_encrypt(key, nonce, entry_bytes(item)),
        ),
        authentic(sealed(item, key, nonce), key),
{
    let record = sealed(item, key, nonce);
    let ciphertext = cbc_encrypt(key, nonce, entry_bytes(item));
    assert(nonce_of(record) =~= nonce);
    assert(ciphertext_of(record) =~= ciphertext);
    assert(carried_tag(record) =~= tag_of(key, nonce, ciphertext));
}

/// A sealed record with one of its bits inverted does not carry the tag of
/// its ciphertext, where the cipher maps no second block to what the chain
/// inputs of the altered record encrypt to.
proof fn lemma_flipped_not_authentic(item: PasswordItem, key: Seq<u8>, nonce: Seq<u8>, bit: int)
    requires
        nonce.len() == 16,
        0 <= bit < 768,
        forall|m: nat|
            m < 4 ==> sole_preimage(
                key,
                #[trigger] cbc_input(
                    key,
                    nonce_of(flip_bit(sealed(item, key, nonce), bit)),
                    ciphertext_of(flip_bit(sealed(item, key, nonce), bit)),
                    m,
                ),
            ),
    ensures
        !authentic(flip_bit(sealed(item, key, nonce), bit), key),
{
    let genuine = sealed(item, key, nonce);
    let altered = flip_bit(genuine, bit);
    let at = bit / 8;
    lemma_sealed_layout(item, key, nonce);
    lemma_flip_changes(genuine[at], (bit % 8) as u8);
    assert(altered[at] != genuine[at]);
    if at < 16 {
        assert(nonce_of(altered)[at] != nonce[at]);
        assert(ciphertext_of(altered) =~= ciphertext_of(genuine));
        assert(carried_tag(altered) =~= carried_tag(genuine));
        lemma_chain_diverges_from_start(
            key,
            nonce,
            nonce_of(altered),
            ciphertext_of(genuine),
            4,
        );
    } else if at >= 80 {
        assert(nonce_of(altered) =~= nonce);
        assert(ciphertext_of(altered) =~= ciphertext_of(genuine));
        assert(carried_tag(altered)[at - 80] != carried_tag(genuine)[at - 80]);
    } else {
        let a = ciphertext_of(genuine);
        let b = ciphertext_of(altered);
        let j = ((at - 16) / 16) as nat;
        assert(nonce_of(altered) =~= nonce);
        assert(carried_tag(altered) =~= carried_tag(genuine));
        assert(block_of(a, j)[at - 16 - 16 * j] != block_of(b, j)[at - 16 - 16 * j]);
        assert forall|m: nat| m < 4 && m != j implies block_of(a, m) == block_of(b, m) by {
            assert(block_of(a, m) =~= block_of(b, m));
        }
        lemma_chain_diverges(key, nonce, a, b, j, 4);
    }
}

/// The sealed record of an entry: `nonce ‖ ciphertext ‖ tag`.
pub fn encode(item: &PasswordItem, key: &[u8; 32], nonce: &[u8; 16]) -> (record: [u8; 96])
    ensures
        record@ == sealed(*item, key@, nonce@),
{
    let mut buffer = buffer_new();
    let fit_name = buffer_extend(&mut buffer, item.name.bytes().as_slice());
    assert(fit_name is Ok);
    let fit_pass = buffer_extend(&mut buffer, item.pass.bytes().as_slice());
    assert(fit_pass is Ok);
    assert(buffer_contents(buffer) =~= entry_bytes(*item));
    cbc_encrypt_buffer(key, nonce, &mut buffer);
    let ciphertext = buffer_to_array(&buffer);
    cbc_encrypt_buffer(key, nonce, &mut buffer);
    let again = buffer_to_array(&buffer);
    let tag = slice_subrange(again.as_slice(), 48, 64);
    assert(tag@ =~= tag_of(key@, nonce@, ciphertext@)) by {
        assert forall|i: int| 0 <= i < 16 implies tag@[i] == tag_of(key@, nonce@, ciphertext@)[i] by {
            assert((48 + i) / 16 + 1 == 4 && (48 + i) % 16 == i);
        }
    }
    let mut record = [0u8; 96];
    write_at(&mut record, 0, nonce.as_slice());
    write_at(&mut record, 16, ciphertext.as_slice());
    write_at(&mut record, 80, tag);
    assert(record@ =~= sealed(*item, key@, nonce@));
    record
}

/// The entry that a sealed record holds, if the record carries the tag that
/// belongs to its ciphertext under `key`.
///
/// It undoes [`encode`]: the record that an entry was sealed to, under the
/// same key and any nonce, gives that entry back, and what comes out of an
/// accepted record seals to that record again. A sealed record in which one
/// bit was inverted, be it of the nonce, the ciphertext or the tag, is
/// refused.
pub fn decode(record: &[u8; 96], key: &[u8; 32]) -> (entry: Result<PasswordItem, AuthFailure>)
    ensures
        entry is Ok <==> authentic(record@, key@),
        entry matches Ok(item) ==> entry_bytes(item) == cbc_decrypt(
            key@,
            nonce_of(record@),
            ciphertext_of(record@),
        ) && item == entry_of(cbc_decrypt(key@, nonce_of(record@), ciphertext_of(record@))),
        entry matches Ok(item) ==> sealed(item, key@, nonce_of(record@)) == record@,
        forall|item: PasswordItem, nonce: Seq<u8>|
            nonce.len() == 16 && #[trigger] sealed(item, key@, nonce) == record@ ==> entry == Ok::<
                PasswordItem,
                AuthFailure,
            >(item),
        forall|item: PasswordItem, nonce: Seq<u8>, bit: int|
            nonce.len() == 16 && 0 <= bit < 768 && #[trigger] flip_bit(
                sealed(item, key@, nonce),
                bit,
            ) == record@ ==> entry is Err,
{
    let bytes = record.as_slice();
    let mut nonce = [0u8; 16];
    write_at(&mut nonce, 0, slice_subrange(bytes, 0, 16));
    assert(nonce@ =~= nonce_of(record@));
    let ciphertext = slice_subrange(bytes, 16, 80);
    let mut buffer = buffer_of(ciphertext);
    cbc_encrypt_buffer(key, &nonce, &mut buffer);
    let again = buffer_to_array(&buffer);
    let expected = slice_subrange(again.as_slice(), 48, 64);
    assert(expected@ =~= tag_of(key@, nonce@, ciphertext@)) by {
        assert forall|i: int| 0 <= i < 16 implies expected@[i] == tag_of(
            key@,
            nonce@,
            ciphertext@,
        )[i] by {
            assert((48 + i) / 16 + 1 == 4 && (48 + i) % 16 == i);
        }
    }
    let accepted = same_bytes(slice_subrange(bytes, 80, 96), expected);
    assert(accepted == authentic(record@, key@));
    proof {
        assert forall|item: PasswordItem, other: Seq<u8>, bit: int|
            other.len() == 16 && 0 <= bit < 768 && #[trigger] flip_bit(
                sealed(item, key@, other),
                bit,
            ) == record@ implies !accepted by {
            lemma_flipped_not_authentic(item, key@, other, bit);
        }
        assert forall|item: PasswordItem, other: Seq<u8>|
            other.len() == 16 && #[trigger] sealed(item, key@, other) == record@ implies accepted by {
            lemma_sealed_layout(item, key@, other);
        }
    }
    if !accepted {
        return Err(AuthFailure);
    }
    buffer_clear(&mut buffer);
    let fit = buffer_extend(&mut buffer, ciphertext);
    assert(fit is Ok);
    assert(buffer_contents(buffer) =~= ciphertext@);
    cbc_decrypt_buffer(key, &nonce, &mut buffer);
    let plain = buffer_to_array(&buffer);
    let item = decode_plain(&plain);
    proof {
        lemma_encrypt_decrypted(key@, nonce@, ciphertext@);
        assert(sealed(item, key@, nonce@) =~= record@);
        assert forall|first: PasswordItem, other: Seq<u8>|
            other.len() == 16 && #[trigger] sealed(first, key@, other) == record@ implies first
            == item by {
            lemma_sealed_layout(first, key@, other);
            lemma_decrypt_encrypted(key@, other, entry_bytes(first));
            lemma_entry_bytes_injective(first, item);
        }
    }
    Ok(item)
}

} // verus!
