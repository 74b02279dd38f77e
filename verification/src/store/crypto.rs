//! Encryption of records and derivation of keys.

use vstd::prelude::*;
use vstd::utf8::encode_utf8;
use argon2::password_hash::SaltString;
use argon2::Argon2;
use chacha20poly1305::aead::{Aead, KeyInit, Payload};
use chacha20poly1305::{ChaCha20Poly1305, Key, Nonce};
use rand_core::OsRng;
use zeroize::Zeroize;
use crate::bytes::copy_bytes;
use crate::random::random_12;
use super::error::{Error, ErrorView, Result};

verus! {

/// The length of a nonce.
pub const NONCE_LEN: usize = 12;

/// The length of a key.
pub const DEK_LEN: usize = 32;

/// What ChaCha20-Poly1305 makes of a plaintext under a key and a nonce, with associated data:
/// the ciphertext, followed by the tag.
pub uninterp spec fn sealed(
    key: Seq<u8>,
    nonce: Seq<u8>,
    associated: Seq<u8>,
    plaintext: Seq<u8>,
) -> Seq<u8>;

/// The plaintext that ChaCha20-Poly1305 finds in a ciphertext with its tag, unless the tag does
/// not fit.
pub uninterp spec fn opened(
    key: Seq<u8>,
    nonce: Seq<u8>,
    associated: Seq<u8>,
    ciphertext: Seq<u8>,
) -> Option<Seq<u8>>;

/// The longest plaintext that the cipher's block counter reaches to the end of: all blocks but
/// the one that the tag's key is made of, and the last.
pub const MAX_PLAINTEXT_LEN: u64 = 274_877_906_816;

/// The length of a tag.
pub const TAG_LEN: usize = 16;

/// Whether a plaintext is short enough for the cipher's block counter.
pub open spec fn encryptable(plaintext: Seq<u8>) -> bool {
    plaintext.len() <= MAX_PLAINTEXT_LEN
}

/// `chacha20poly1305::ChaCha20Poly1305::encrypt`. Claimed of it, for a plaintext of at most
/// 2^32 - 2 blocks: it does not fail; its result is a function of its four arguments, called
/// `sealed`, and longer than the plaintext by the tag; and decrypting that result under the
/// same key, nonce and associated data gives the plaintext back.
#[verifier::external_body]
fn aead_encrypt(key: &[u8; 32], nonce: &[u8], associated: &[u8], plaintext: &[u8]) -> (ciphertext:
    Option<Vec<u8>>)
    requires
        nonce@.len() == NONCE_LEN,
        encryptable(plaintext@),
    ensures
        ciphertext is Some,
        ciphertext matches Some(c) ==> c@ == sealed(key@, nonce@, associated@, plaintext@),
        ciphertext matches Some(c) ==> c@.len() == plaintext@.len() + TAG_LEN,
        ciphertext matches Some(c) ==> opened(key@, nonce@, associated@, c@) == Some(plaintext@),
{
    let cipher = ChaCha20Poly1305::new(Key::from_slice(key));
    cipher.encrypt(Nonce::from_slice(nonce), Payload { msg: plaintext, aad: associated }).ok()
}

/// `chacha20poly1305::ChaCha20Poly1305::decrypt`. Claimed of it, for a ciphertext of at most
/// 2^32 - 2 blocks and a tag: its result is a function of its four arguments, called `opened`.
#[verifier::external_body]
fn aead_decrypt(key: &[u8; 32], nonce: &[u8], associated: &[u8], ciphertext: &[u8]) -> (plaintext:
    Option<Vec<u8>>)
    requires
        nonce@.len() == NONCE_LEN,
        ciphertext@.len() <= MAX_PLAINTEXT_LEN + TAG_LEN,
    ensures
        match plaintext {
            Some(p) => opened(key@, nonce@, associated@, ciphertext@) == Some(p@),
            None => opened(key@, nonce@, associated@, ciphertext@) is None,
        },
{
    let cipher = ChaCha20Poly1305::new(Key::from_slice(key));
    cipher.decrypt(Nonce::from_slice(nonce), Payload { msg: ciphertext, aad: associated }).ok()
}

/// The thirty-two bytes that Argon2 with its default parameters makes of a password and a salt,
/// or the text of its error.
pub uninterp spec fn argon2_key(password: Seq<u8>, salt: Seq<u8>) -> std::result::Result<
    Seq<u8>,
    Seq<char>,
>;

/// Whether Argon2 takes a password and a salt of these lengths.
pub open spec fn hashable(password: Seq<u8>, salt: Seq<u8>) -> bool {
    password.len() <= 0xffff_ffff && 8 <= salt.len() <= 0xffff_ffff
}

/// `argon2::Argon2::hash_password_into` with the default parameters and an output of thirty-two
/// bytes. Claimed of it: it fails where the password or the salt is too long or the salt too
/// short, and nowhere else; its result is a function of the two, called `argon2_key`.
#[verifier::external_body]
fn argon2_hash(password: &[u8], salt: &[u8]) -> (key: std::result::Result<[u8; 32], String>)
    ensures
        key is Ok <==> hashable(password@, salt@),
        match key {
            Ok(k) => argon2_key(password@, salt@) == std::result::Result::<Seq<u8>, Seq<char>>::Ok(k@),
            Err(e) => argon2_key(password@, salt@) == std::result::Result::<Seq<u8>, Seq<char>>::Err(e@),
        },
{
    let mut key = [0u8; 32];
    match Argon2::default().hash_password_into(password, salt, &mut key) {
        Ok(()) => Ok(key),
        Err(e) => Err(e.to_string()),
    }
}

/// `argon2::password_hash::SaltString::generate`. Claimed of it: the salt, which is random, is
/// twenty-two bytes long, the Base64 form of sixteen.
#[verifier::external_body]
pub(crate) fn generate_salt() -> (salt: String)
    ensures
        encode_utf8(salt@).len() == 22,
{
    SaltString::generate(&mut OsRng).as_str().to_string()
}

/// `zeroize::Zeroize::zeroize`. Claimed of it: every byte of the key is zero afterwards.
#[verifier::external_body]
pub(crate) fn zeroize_key(key: &mut [u8; 32])
    ensures
        forall|i: int| 0 <= i < 32 ==> final(key)@[i] == 0,
{
    key.zeroize();
}

/// Whether `stored` is `plaintext` encrypted under `key` and bound to `name`: a nonce followed
/// by the ciphertext with its tag, which decrypts to the plaintext again.
pub open spec fn holds(stored: Seq<u8>, key: Seq<u8>, name: Seq<u8>, plaintext: Seq<u8>) -> bool {
    &&& encryptable(plaintext)
    &&& stored.len() == NONCE_LEN + plaintext.len() + TAG_LEN
    &&& stored.skip(NONCE_LEN as int) == sealed(key, stored.take(NONCE_LEN as int), name, plaintext)
    &&& opened(key, stored.take(NONCE_LEN as int), name, stored.skip(NONCE_LEN as int)) == Some(
        plaintext,
    )
}

/// What is read back of a stored value under `key` and `name`. One that is longer than any that
/// is ever stored fails like one that was tampered with.
pub open spec fn decrypted(key: Seq<u8>, name: Seq<u8>, stored: Seq<u8>) -> std::result::Result<
    Seq<u8>,
    ErrorView,
> {
    if stored.len() < NONCE_LEN {
        Err(ErrorView::MalformedRecord("stored value shorter than a nonce"))
    } else if stored.len() > NONCE_LEN + MAX_PLAINTEXT_LEN + TAG_LEN {
        Err(ErrorView::DecryptionFailed)
    } else {
        match opened(key, stored.take(NONCE_LEN as int), name, stored.skip(NONCE_LEN as int)) {
            Some(plaintext) => Ok(plaintext),
            None => Err(ErrorView::DecryptionFailed),
        }
    }
}

/// Whether a result is the one stated.
pub open spec fn bytes_result(
    result: Result<Vec<u8>>,
    stated: std::result::Result<Seq<u8>, ErrorView>,
) -> bool {
    match result {
        Ok(bytes) => stated == std::result::Result::<Seq<u8>, ErrorView>::Ok(bytes@),
        Err(e) => stated == std::result::Result::<Seq<u8>, ErrorView>::Err(e@),
    }
}

/// Decrypting gives back what was encrypted, under the same key and name.
pub proof fn law_decrypt_undoes_encrypt(
    stored: Seq<u8>,
    key: Seq<u8>,
    name: Seq<u8>,
    plaintext: Seq<u8>,
)
    requires
        holds(stored, key, name, plaintext),
    ensures
        decrypted(key, name, stored) == std::result::Result::<Seq<u8>, ErrorView>::Ok(plaintext),
{
}

/// Encrypts `plaintext` under `key` with the given nonce, bound to `name`. A nonce serves for
/// one record only.
pub fn encrypt_with(key: &[u8; 32], nonce: &[u8; 12], name: &[u8], plaintext: &[u8]) -> (stored:
    Result<Vec<u8>>)
    ensures
        match stored {
            Ok(s) => encryptable(plaintext@) && holds(s@, key@, name@, plaintext@) && s@ == nonce@
                + sealed(key@, nonce@, name@, plaintext@),
            Err(e) => !encryptable(plaintext@) && e is EncryptionFailed,
        },
{
    if plaintext.len() as u64 > MAX_PLAINTEXT_LEN {
        return Err(Error::EncryptionFailed);
    }
    let mut stored: Vec<u8> = copy_bytes(nonce.as_slice());
    match aead_encrypt(key, nonce.as_slice(), name, plaintext) {
        Some(ciphertext) => {
            stored.extend_from_slice(ciphertext.as_slice());
            assert(stored@.take(NONCE_LEN as int) =~= nonce@);
            assert(stored@.skip(NONCE_LEN as int) =~= ciphertext@);
            Ok(stored)
        },
        None => Err(Error::EncryptionFailed),
    }
}

/// Encrypts `plaintext` under `key` with a random nonce, bound to `name`.
pub fn encrypt(key: &[u8; 32], name: &[u8], plaintext: &[u8]) -> (stored: Result<Vec<u8>>)
    ensures
        match stored {
            Ok(s) => encryptable(plaintext@) && holds(s@, key@, name@, plaintext@),
            Err(e) => !encryptable(plaintext@) && e is EncryptionFailed,
        },
{
    encrypt_with(key, &random_12(), name, plaintext)
}

/// Decrypts a stored value under `key`, bound to `name`.
pub fn decrypt(key: &[u8; 32], name: &[u8], stored: &[u8]) -> (plaintext: Result<Vec<u8>>)
    ensures
        bytes_result(plaintext, decrypted(key@, name@, stored@)),
{
    if stored.len() < NONCE_LEN {
        return Err(Error::MalformedRecord("stored value shorter than a nonce"));
    }
    if (stored.len() - NONCE_LEN) as u64 > MAX_PLAINTEXT_LEN + TAG_LEN as u64 {
        return Err(Error::DecryptionFailed);
    }
    let nonce: &[u8] = vstd::slice::slice_subrange(stored, 0, NONCE_LEN);
    let ciphertext: &[u8] = vstd::slice::slice_subrange(stored, NONCE_LEN, stored.len());
    assert(nonce@ =~= stored@.take(NONCE_LEN as int));
    assert(ciphertext@ =~= stored@.skip(NONCE_LEN as int));
    match aead_decrypt(key, nonce, name, ciphertext) {
        Some(plaintext) => Ok(plaintext),
        None => Err(Error::DecryptionFailed),
    }
}

/// The master key of a passphrase and a salt.
pub open spec fn master_key(passphrase: Seq<char>, salt: Seq<u8>) -> std::result::Result<
    Seq<u8>,
    ErrorView,
> {
    match argon2_key(encode_utf8(passphrase), salt) {
        Ok(key) => Ok(key),
        Err(text) => Err(ErrorView::PassphraseHash(text)),
    }
}

/// The master key of a passphrase and a salt.
pub fn derive_key(passphrase: &str, salt: &[u8]) -> (key: Result<[u8; 32]>)
    ensures
        key is Ok <==> hashable(encode_utf8(passphrase@), salt@),
        match key {
            Ok(k) => master_key(passphrase@, salt@) == std::result::Result::<
                Seq<u8>,
                ErrorView,
            >::Ok(k@),
            Err(e) => master_key(passphrase@, salt@) == std::result::Result::<
                Seq<u8>,
                ErrorView,
            >::Err(e@),
        },
{
    match argon2_hash(passphrase.as_bytes(), salt) {
        Ok(key) => Ok(key),
        Err(text) => Err(Error::PassphraseHash(text)),
    }
}

} // verus!
