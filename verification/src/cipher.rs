//! The block cipher: AES-256 on single blocks, as the `aes` crate computes it.
//! Nothing here is proved; the contracts state what the cipher is relied on for.

use aes::cipher::generic_array::GenericArray;
use aes::cipher::{BlockDecrypt, BlockEncrypt, KeyInit};
use aes::Aes256;
use vstd::prelude::*;

verus! {

/// Length in bytes of a cipher key.
pub const KEY_LEN: usize = 32;

/// Length in bytes of a cipher block.
pub const BLOCK_LEN: usize = 16;

/// The AES-256 encryption of one 16-byte `block` under a 32-byte `key`.
pub uninterp spec fn aes256_encrypt_block(key: Seq<u8>, block: Seq<u8>) -> [u8; 16];

/// The AES-256 decryption of one 16-byte `block` under a 32-byte `key`.
pub uninterp spec fn aes256_decrypt_block(key: Seq<u8>, block: Seq<u8>) -> [u8; 16];

/// No other block encrypts to what `block` encrypts to under `key`.
pub open spec fn sole_preimage(key: Seq<u8>, block: Seq<u8>) -> bool {
    forall|other: Seq<u8>|
        other.len() == 16 && #[trigger] aes256_encrypt_block(key, other) == aes256_encrypt_block(
            key,
            block,
        ) ==> other == block
}

/// Decryption of `block` under `key` is the inverse of encryption: what it
/// gives encrypts to `block`, and it gives back whatever encrypted to `block`.
pub open spec fn decrypts_back(key: Seq<u8>, block: Seq<u8>) -> bool {
    &&& aes256_encrypt_block(key, aes256_decrypt_block(key, block)@)@ == block
    &&& forall|plain: Seq<u8>|
        plain.len() == 16 && (#[trigger] aes256_encrypt_block(key, plain))@ == block
            ==> aes256_decrypt_block(key, block)@ == plain
}

/// Calls `Aes256::new` and `BlockEncrypt::encrypt_block` of the `aes` crate.
/// Claims that the output is a function of key and block alone, and that no
/// other 16-byte block encrypts to the same output under the same key: for a
/// fixed key the cipher is a permutation of the blocks.
#[verifier::external_body]
pub(crate) fn encrypt_block(key: &[u8; 32], block: &[u8; 16]) -> (out: [u8; 16])
    ensures
        out == aes256_encrypt_block(key@, block@),
        forall|other: Seq<u8>|
            other.len() == 16 && #[trigger] aes256_encrypt_block(key@, other) == out ==> other
                == block@,
{
    let cipher = Aes256::new(GenericArray::from_slice(key));
    let mut data = GenericArray::clone_from_slice(block);
    cipher.encrypt_block(&mut data);
    data.into()
}

/// Calls `Aes256::new` and `BlockDecrypt::decrypt_block` of the `aes` crate.
/// Claims that the output is a function of key and block alone, that it
/// encrypts back to the input, and that it is the block which encrypted to
/// the input: decryption is the inverse of encryption under the same key.
#[verifier::external_body]
pub(crate) fn decrypt_block(key: &[u8; 32], block: &[u8; 16]) -> (out: [u8; 16])
    ensures
        out == aes256_decrypt_block(key@, block@),
        aes256_encrypt_block(key@, out@)@ == block@,
        forall|plain: Seq<u8>|
            plain.len() == 16 && (#[trigger] aes256_encrypt_block(key@, plain))@ == block@ ==> out@
                == plain,
{
    let cipher = Aes256::new(GenericArray::from_slice(key));
    let mut data = GenericArray::clone_from_slice(block);
    cipher.decrypt_block(&mut data);
    data.into()
}

} // verus!
