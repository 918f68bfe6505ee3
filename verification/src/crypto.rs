//! Key derivation, hashing and the sealing of a single field.
//!
//! SHA-256, PBKDF2 and AES-256-GCM are not modelled here: each is a named
//! function of its arguments, and what this module proves is how the vault
//! puts them together.

use crate::encoding::{
    hex_bytes, hex_decode, hex_encode, hex_text, is_hex_text, lemma_hex_round_trip, lemma_hex_text_of_parts,
};
use crate::error::BackendError;
use aes_gcm::aead::{Aead, AeadCore, KeyInit, OsRng};
use aes_gcm::{Aes256Gcm, Key, Nonce};
use pbkdf2::pbkdf2_hmac;
use sha2::{Digest, Sha256};
use vstd::prelude::*;
use vstd::slice::slice_to_vec;
use vstd::utf8::*;

verus! {

/// The number of PBKDF2 rounds behind every key.
pub const KDF_ROUNDS: u32 = 4096;

/// The length of a nonce in bytes.
pub const NONCE_LEN: usize = 12;

/// The length of the authentication tag that closes every ciphertext.
pub const TAG_LEN: usize = 16;

/// The longest plaintext, in bytes, that the cipher seals.
pub const MAX_PLAINTEXT_LEN: u64 = 0x10_0000_0000;

/// The SHA-256 digest of `data`.
pub uninterp spec fn sha256(data: Seq<u8>) -> Seq<u8>;

/// The first 32 bytes of PBKDF2 with HMAC-SHA-256 over `password` and `salt`.
pub uninterp spec fn pbkdf2_hmac_sha256(password: Seq<u8>, salt: Seq<u8>, rounds: u32) -> Seq<u8>;

/// The AES-256-GCM ciphertext of `plaintext`, tag included, with no
/// associated data.
pub uninterp spec fn aes256_gcm_seal(key: Seq<u8>, nonce: Seq<u8>, plaintext: Seq<u8>) -> Seq<u8>;

/// What AES-256-GCM decryption makes of `ciphertext`: the plaintext, or
/// `None` where it rejects.
pub uninterp spec fn aes256_gcm_open(key: Seq<u8>, nonce: Seq<u8>, ciphertext: Seq<u8>) -> Option<Seq<u8>>;

/// `aes_gcm::Error`, the one error of the cipher, opaque by its authors' design.
#[verifier::external_type_specification]
#[verifier::external_body]
pub struct ExAeadError(aes_gcm::Error);

/// Hashes `text` with SHA-256 (`Sha256::digest`). Used for the verifiers of
/// the master password and the recovery phrase, never for a key.
#[verifier::external_body]
pub fn hash(text: &[u8]) -> (digest: [u8; 32])
    ensures
        digest@ == sha256(text@),
{
    Sha256::digest(text).into()
}

/// `pbkdf2_hmac::<Sha256>` into a buffer of 32 bytes.
#[verifier::external_body]
fn pbkdf2_sha256(password: &[u8], salt: &[u8], rounds: u32) -> (key: [u8; 32])
    ensures
        key@ == pbkdf2_hmac_sha256(password@, salt@, rounds),
{
    let mut key: [u8; 32] = [0u8; 32];
    pbkdf2_hmac::<Sha256>(password, salt, rounds, &mut key);
    key
}

/// `Aes256Gcm::generate_nonce` over the system's random source. Nothing is
/// promised of the bytes; the call stops the program where the system has no
/// random source to offer.
#[verifier::external_body]
pub(crate) fn fresh_nonce() -> (nonce: [u8; 12])
{
    Aes256Gcm::generate_nonce(OsRng).into()
}

/// `Aead::encrypt` of AES-256-GCM. It refuses exactly the plaintexts over
/// the cipher's limit. What it returns is 16 bytes longer than the plaintext,
/// and decryption under the same key and nonce gives the plaintext back.
#[verifier::external_body]
fn aes256_gcm_encrypt(key: &[u8; 32], nonce: &[u8; 12], plaintext: &[u8]) -> (sealed: Result<Vec<u8>, aes_gcm::Error>)
    ensures
        sealed is Ok <==> plaintext@.len() <= MAX_PLAINTEXT_LEN,
        sealed matches Ok(ciphertext) ==> ciphertext@ == aes256_gcm_seal(key@, nonce@, plaintext@),
        sealed matches Ok(ciphertext) ==> ciphertext@.len() == plaintext@.len() + TAG_LEN,
        sealed matches Ok(ciphertext) ==> aes256_gcm_open(key@, nonce@, ciphertext@) == Some(plaintext@),
{
    Aes256Gcm::new(Key::<Aes256Gcm>::from_slice(key)).encrypt(Nonce::from_slice(nonce), plaintext)
}

/// `Aead::decrypt` of AES-256-GCM. A plaintext comes back 16 bytes shorter
/// than the ciphertext, so nothing shorter than a tag is ever accepted.
#[verifier::external_body]
fn aes256_gcm_decrypt(key: &[u8; 32], nonce: &[u8], ciphertext: &[u8]) -> (opened: Result<Vec<u8>, aes_gcm::Error>)
    requires
        nonce@.len() == NONCE_LEN,
    ensures
        opened is Ok <==> aes256_gcm_open(key@, nonce@, ciphertext@) is Some,
        opened matches Ok(plaintext) ==> aes256_gcm_open(key@, nonce@, ciphertext@) == Some(plaintext@),
        opened matches Ok(plaintext) ==> plaintext@.len() + TAG_LEN == ciphertext@.len(),
{
    Aes256Gcm::new(Key::<Aes256Gcm>::from_slice(key)).decrypt(Nonce::from_slice(nonce), ciphertext)
}

/// `String::from_utf8`: the text of the bytes where they are valid UTF-8,
/// nothing otherwise.
#[verifier::external_body]
fn text_from_utf8(bytes: Vec<u8>) -> (text: Option<String>)
    ensures
        text is Some <==> valid_utf8(bytes@),
        text matches Some(t) ==> t@ == decode_utf8(bytes@),
{
    String::from_utf8(bytes).ok()
}

/// The key of the record named `salt` under `master`.
pub open spec fn derived_key(master: Seq<char>, salt: Seq<char>) -> Seq<u8> {
    pbkdf2_hmac_sha256(encode_utf8(master), encode_utf8(salt), KDF_ROUNDS)
}

/// Derives the 256-bit key of a record from the master password, with the
/// record's name as salt. The same two texts always give the same key.
pub fn derive_key(master_password: &str, kdf_salt: &str) -> (key: [u8; 32])
    ensures
        key@ == derived_key(master_password@, kdf_salt@),
{
    pbkdf2_sha256(master_password.as_bytes(), kdf_salt.as_bytes(), KDF_ROUNDS)
}

/// Two records with different names never hand the same salt to the key
/// derivation, and two different master passwords never the same password:
/// the bytes of a text determine the text. What the derivation makes of
/// different inputs is its own matter.
pub proof fn lemma_kdf_inputs_differ(a: Seq<char>, b: Seq<char>)
    requires
        a != b,
    ensures
        encode_utf8(a) != encode_utf8(b),
{
    encode_utf8_decode_utf8(a);
    encode_utf8_decode_utf8(b);
}

/// The stored form of `plaintext` sealed under `key` with `nonce`: the
/// hexadecimal text of the nonce followed by the ciphertext and its tag.
pub open spec fn sealed_field(key: Seq<u8>, nonce: Seq<u8>, plaintext: Seq<char>) -> Seq<char> {
    hex_text(nonce + aes256_gcm_seal(key, nonce, encode_utf8(plaintext)))
}

/// What decryption makes of the ciphertext `data` under `key` and `nonce`:
/// the text, or the reason why there is none. A ciphertext that is shorter
/// than a tag is refused whatever it holds.
pub open spec fn opened_bytes(key: Seq<u8>, nonce: Seq<u8>, data: Seq<u8>) -> Result<Seq<char>, BackendError> {
    if nonce.len() != NONCE_LEN {
        Err(BackendError::DecodeError)
    } else if data.len() < TAG_LEN {
        Err(BackendError::AesError)
    } else {
        match aes256_gcm_open(key, nonce, data) {
            None => Err(BackendError::AesError),
            Some(plaintext) => if valid_utf8(plaintext) {
                Ok(decode_utf8(plaintext))
            } else {
                Err(BackendError::ToStringError)
            },
        }
    }
}

/// What reading makes of the stored field `stored` under `key`: it must be
/// hexadecimal text of at least a nonce's length, and what follows the nonce
/// must decrypt to text.
pub open spec fn opened_field(key: Seq<u8>, stored: Seq<char>) -> Result<Seq<char>, BackendError> {
    if !is_hex_text(stored) || hex_bytes(stored).len() < NONCE_LEN {
        Err(BackendError::DecodeError)
    } else {
        let raw = hex_bytes(stored);
        opened_bytes(key, raw.subrange(0, NONCE_LEN as int), raw.subrange(NONCE_LEN as int, raw.len() as int))
    }
}

/// Whether the exec result `got` is the spec result `want`.
pub open spec fn text_result_is(got: Result<String, BackendError>, want: Result<Seq<char>, BackendError>) -> bool {
    match got {
        Ok(text) => want == Ok::<Seq<char>, BackendError>(text@),
        Err(e) => want == Err::<Seq<char>, BackendError>(e),
    }
}

/// Decrypts the ciphertext `data` (tag included) under `key` and
/// `decoded_nonce`. It fails closed: a nonce of the wrong length, a tag that
/// does not verify and a plaintext that is not UTF-8 each give their error,
/// and no part of a plaintext comes back with an error.
pub fn decrypt_password_field(data: &[u8], decoded_nonce: &[u8], key: &[u8; 32]) -> (r: Result<String, BackendError>)
    ensures
        text_result_is(r, opened_bytes(key@, decoded_nonce@, data@)),
        data@.len() < TAG_LEN ==> r is Err,
{
    if decoded_nonce.len() != NONCE_LEN {
        return Err(BackendError::DecodeError);
    }
    match aes256_gcm_decrypt(key, decoded_nonce, data) {
        Err(_) => Err(BackendError::AesError),
        Ok(plaintext) => match text_from_utf8(plaintext) {
            Some(text) => Ok(text),
            None => Err(BackendError::ToStringError),
        },
    }
}

/// Reads one stored field under `key`: decodes the hexadecimal text, takes
/// the first 12 bytes as the nonce and decrypts the rest.
pub fn open_field(key: &[u8; 32], stored: &str) -> (r: Result<String, BackendError>)
    ensures
        text_result_is(r, opened_field(key@, stored@)),
{
    match hex_decode(stored) {
        Err(_) => Err(BackendError::DecodeError),
        Ok(raw) => {
            if raw.len() < NONCE_LEN {
                return Err(BackendError::DecodeError);
            }
            let (nonce, data) = raw.as_slice().split_at(NONCE_LEN);
            decrypt_password_field(data, nonce, key)
        },
    }
}

/// Seals `data` under `key` with `nonce` and returns the stored form. It
/// fails, with `AesError`, exactly where the text is longer than the cipher
/// accepts. Reading the result back under the same key gives `data`.
pub fn seal_field(key: &[u8; 32], nonce: &[u8; 12], data: &str) -> (r: Result<String, BackendError>)
    ensures
        r is Ok <==> encode_utf8(data@).len() <= MAX_PLAINTEXT_LEN,
        r matches Ok(stored) ==> stored@ == sealed_field(key@, nonce@, data@),
        r matches Ok(stored) ==> opened_field(key@, stored@) == Ok::<Seq<char>, BackendError>(data@),
        r matches Ok(stored) ==> stored@.len() == 2 * (NONCE_LEN + encode_utf8(data@).len() + TAG_LEN),
        r matches Err(e) ==> e == BackendError::AesError,
{
    broadcast use {encode_utf8_valid_utf8, encode_utf8_decode_utf8};

    match aes256_gcm_encrypt(key, nonce, data.as_bytes()) {
        Err(_) => Err(BackendError::AesError),
        Ok(ciphertext) => {
            let mut ciphertext = ciphertext;
            let mut raw: Vec<u8> = slice_to_vec(nonce.as_slice());
            raw.append(&mut ciphertext);
            let stored = hex_encode(raw.as_slice());
            proof {
                let sealed = aes256_gcm_seal(key@, nonce@, encode_utf8(data@));
                assert(raw@ == nonce@ + sealed);
                lemma_hex_round_trip(raw@);
                assert(raw@.subrange(0, NONCE_LEN as int) =~= nonce@);
                assert(raw@.subrange(NONCE_LEN as int, raw@.len() as int) =~= sealed);
            }
            Ok(stored)
        },
    }
}

/// Encrypts `data` for the record `password_name` under `master` with
/// `nonce`, and returns the ciphertext and its tag as hexadecimal text. The
/// nonce is not part of the result: the stored form of a field is the
/// nonce's text followed by this one. The column takes no part in the
/// sealing. It fails, with `AesError`, exactly where the text is longer than
/// the cipher accepts. Decrypting the decoded result under the same key and
/// nonce gives `data`.
pub fn encrypt_password_field(password_name: &str, column_name: &str, data: &str, master: &str, nonce: &[u8; 12]) -> (r: Result<
    String,
    BackendError,
>)
    ensures
        r is Ok <==> encode_utf8(data@).len() <= MAX_PLAINTEXT_LEN,
        r matches Ok(sealed) ==> sealed@ == hex_text(
            aes256_gcm_seal(derived_key(master@, password_name@), nonce@, encode_utf8(data@)),
        ),
        r matches Ok(sealed) ==> sealed@.len() == 2 * (encode_utf8(data@).len() + TAG_LEN),
        r matches Ok(sealed) ==> hex_text(nonce@) + sealed@ == sealed_field(derived_key(master@, password_name@), nonce@, data@),
        r matches Ok(sealed) ==> is_hex_text(sealed@) && opened_bytes(derived_key(master@, password_name@), nonce@, hex_bytes(sealed@))
            == Ok::<Seq<char>, BackendError>(data@),
        r matches Err(e) ==> e == BackendError::AesError,
{
    broadcast use {encode_utf8_valid_utf8, encode_utf8_decode_utf8};

    let _ = column_name;
    let key: [u8; 32] = derive_key(master, password_name);
    match aes256_gcm_encrypt(&key, nonce, data.as_bytes()) {
        Err(_) => Err(BackendError::AesError),
        Ok(ciphertext) => {
            let sealed = hex_encode(ciphertext.as_slice());
            proof {
                lemma_hex_round_trip(ciphertext@);
                lemma_hex_text_of_parts(nonce@, ciphertext@);
            }
            Ok(sealed)
        },
    }
}

} // verus!
