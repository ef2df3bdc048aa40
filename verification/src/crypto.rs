//! Trusted bridges to the outside digest and cipher crates. Each digest or
//! decryption is a pure function of its arguments; the named spec functions
//! stand for those results, and every contract above them is stated in terms
//! of these names.

use vstd::prelude::*;
use aes::cipher::BlockDecryptMut;
use aes::cipher::KeyIvInit;
use md5::Digest;

verus! {

/// The MD5 digest (16 bytes) of a byte sequence.
pub uninterp spec fn md5_of(b: Seq<u8>) -> Seq<u8>;

/// The SHA-1 digest (20 bytes) of a string's bytes.
pub uninterp spec fn sha1_of(s: Seq<char>) -> Seq<u8>;

/// The AES-256-CBC decryption of `data` under `key` and `iv`, with no
/// padding: defined for whole blocks, and as long as the ciphertext.
pub uninterp spec fn aes256_cbc_plain(key: Seq<u8>, iv: Seq<u8>, data: Seq<u8>) -> Seq<u8>;

/// Relies on the md5 crate's `Md5::digest`: a 16-byte digest that depends on
/// the input bytes alone.
#[verifier::external_body]
pub fn md5_digest(data: &[u8]) -> (r: Vec<u8>)
    ensures
        r@ == md5_of(data@),
        r@.len() == 16,
{
    md5::Md5::digest(data).to_vec()
}

/// Relies on the sha1 crate's `Sha1::digest`: a 20-byte digest that depends
/// on the input bytes alone.
#[verifier::external_body]
pub fn sha1_digest(name: &str) -> (r: Vec<u8>)
    ensures
        r@ == sha1_of(name@),
        r@.len() == 20,
{
    sha1::Sha1::digest(name.as_bytes()).to_vec()
}

/// Relies on cbc's `Decryptor<Aes256>` (`new_from_slices`, then
/// `decrypt_padded_vec_mut::<NoPadding>`): with a 32-byte key, a 16-byte IV
/// and whole blocks, both calls succeed, and with no padding to strip the
/// plaintext is exactly as long as the ciphertext.
#[verifier::external_body]
pub fn aes256_cbc_decrypt(key: &[u8], iv: &[u8], data: &[u8]) -> (r: Vec<u8>)
    requires
        key@.len() == 32,
        iv@.len() == 16,
        data@.len() % 16 == 0,
    ensures
        r@ == aes256_cbc_plain(key@, iv@, data@),
        r@.len() == data@.len(),
{
    let dec = cbc::Decryptor::<aes::Aes256>::new_from_slices(key, iv).unwrap();
    dec.decrypt_padded_vec_mut::<aes::cipher::block_padding::NoPadding>(data).unwrap()
}

} // verus!
