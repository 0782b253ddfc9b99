//! AES-128 primitives for Security Access: CTR keystream application
//! and CMAC tags, called through trusted wrappers, with the
//! hex-string key handling verified around them.

use vstd::prelude::*;

use aes::cipher::generic_array::GenericArray;
use aes::cipher::{KeyIvInit, StreamCipher};
use cmac::digest::KeyInit;
use cmac::Mac;

use crate::common::{hex_decode_chars, spec_bytes_of_hex, spec_hex_valid};
use crate::error::TesterError;

verus! {

/// What AES-128-CTR makes of data under an IV and key; a function of
/// its arguments alone.
pub uninterp spec fn spec_aes128_ctr(data: Seq<u8>, iv: Seq<u8>, key: Seq<u8>) -> Seq<u8>;

/// The AES-128-CMAC tag of data under a key; a function of its
/// arguments alone.
pub uninterp spec fn spec_aes128_cmac(data: Seq<u8>, key: Seq<u8>) -> Seq<u8>;

/// Relies on ctr::Ctr64LE over aes::Aes128 via cipher's
/// StreamCipher: applies the CTR keystream for this key and IV, a
/// pure function of the three inputs that keeps the data's length.
#[verifier::external_body]
fn aes128_ctr_apply(data: &Vec<u8>, iv: &Vec<u8>, key: &Vec<u8>) -> (r: Vec<u8>)
    requires
        iv@.len() == 16,
        key@.len() == 16,
    ensures
        r@ == spec_aes128_ctr(data@, iv@, key@),
        r@.len() == data@.len(),
{
    let mut buf = data.clone();
    let mut cipher: ctr::Ctr64LE<aes::Aes128> = ctr::Ctr64LE::<aes::Aes128>::new(
        GenericArray::from_slice(key.as_slice()),
        GenericArray::from_slice(iv.as_slice()),
    );
    cipher.apply_keystream(&mut buf);
    buf
}

/// Relies on cmac::Cmac over aes::Aes128: the 16-byte AES-128-CMAC
/// tag of the data under the key, a pure function of the two inputs.
#[verifier::external_body]
fn aes128_cmac_tag(data: &Vec<u8>, key: &Vec<u8>) -> (r: Vec<u8>)
    requires
        key@.len() == 16,
    ensures
        r@ == spec_aes128_cmac(data@, key@),
        r@.len() == 16,
{
    let mut mac = <cmac::Cmac<aes::Aes128> as KeyInit>::new_from_slice(key.as_slice()).unwrap();
    mac.update(data.as_slice());
    mac.finalize().into_bytes().to_vec()
}

/// Relies on rand::random: one byte from the thread-local generator;
/// nothing is promised of its value.
#[verifier::external_body]
fn random_byte() -> u8 {
    rand::random::<u8>()
}

/// Draws `n` random bytes.
pub fn gen_random_bytes(n: usize) -> (r: Vec<u8>)
    ensures
        r@.len() == n,
{
    let mut r: Vec<u8> = Vec::new();
    let mut i: usize = 0;
    while i < n
        invariant
            0 <= i <= n,
            r@.len() == i,
        decreases n - i,
    {
        r.push(random_byte());
        i = i + 1;
    }
    r
}

/// A key string that denotes a 128-bit key: plain hex, 32 digits.
pub open spec fn spec_key_ok(key: Seq<char>) -> bool {
    spec_hex_valid(key) && spec_bytes_of_hex(key).len() == 16
}

/// The bytes of such a key.
pub open spec fn spec_key_bytes(key: Seq<char>) -> Seq<u8> {
    spec_bytes_of_hex(key)
}

/// Decodes a hex key string, accepting exactly the 16-byte keys.
fn parse_key(key: &str) -> (r: Result<Vec<u8>, TesterError>)
    ensures
        r is Ok <==> spec_key_ok(key@),
        r is Ok ==> r.unwrap()@ == spec_key_bytes(key@),
        r is Err ==> r.unwrap_err() == TesterError::CryptoError,
{
    match hex_decode_chars(key) {
        Some(bytes) => {
            if bytes.len() == 16 {
                Ok(bytes)
            } else {
                Err(TesterError::CryptoError)
            }
        },
        None => Err(TesterError::CryptoError),
    }
}

/// Encrypts data with AES-128-CTR under a hex-encoded key; refused
/// unless the key denotes 16 bytes and the IV is 16 bytes long.
pub fn encrypt_aes128_ctr(data_to_encrypt: &Vec<u8>, iv_bytes: &Vec<u8>, key: &str) -> (r: Result<
    Vec<u8>,
    TesterError,
>)
    ensures
        r is Ok <==> (spec_key_ok(key@) && iv_bytes@.len() == 16),
        r is Ok ==> r.unwrap()@ == spec_aes128_ctr(data_to_encrypt@, iv_bytes@, spec_key_bytes(key@))
            && r.unwrap()@.len() == data_to_encrypt@.len(),
        r is Err ==> r.unwrap_err() == TesterError::CryptoError,
{
    let key_bytes = match parse_key(key) {
        Ok(b) => b,
        Err(e) => {
            return Err(e);
        },
    };
    if iv_bytes.len() != 16 {
        return Err(TesterError::CryptoError);
    }
    Ok(aes128_ctr_apply(data_to_encrypt, iv_bytes, &key_bytes))
}

/// Decrypts data with AES-128-CTR under a hex-encoded key; CTR is
/// symmetric, so this applies the same keystream as encryption.
pub fn decrypt_aes128_ctr(encrypted_data: &Vec<u8>, iv_bytes: &Vec<u8>, key: &str) -> (r: Result<
    Vec<u8>,
    TesterError,
>)
    ensures
        r is Ok <==> (spec_key_ok(key@) && iv_bytes@.len() == 16),
        r is Ok ==> r.unwrap()@ == spec_aes128_ctr(encrypted_data@, iv_bytes@, spec_key_bytes(key@))
            && r.unwrap()@.len() == encrypted_data@.len(),
        r is Err ==> r.unwrap_err() == TesterError::CryptoError,
{
    let key_bytes = match parse_key(key) {
        Ok(b) => b,
        Err(e) => {
            return Err(e);
        },
    };
    if iv_bytes.len() != 16 {
        return Err(TesterError::CryptoError);
    }
    Ok(aes128_ctr_apply(encrypted_data, iv_bytes, &key_bytes))
}

/// Computes the AES-128-CMAC tag of data under a hex-encoded key.
pub fn encrypt_aes128_cmac(data_to_encrypt: &Vec<u8>, key: &str) -> (r: Result<
    Vec<u8>,
    TesterError,
>)
    ensures
        r is Ok <==> spec_key_ok(key@),
        r is Ok ==> r.unwrap()@ == spec_aes128_cmac(data_to_encrypt@, spec_key_bytes(key@))
            && r.unwrap()@.len() == 16,
        r is Err ==> r.unwrap_err() == TesterError::CryptoError,
{
    let key_bytes = match parse_key(key) {
        Ok(b) => b,
        Err(e) => {
            return Err(e);
        },
    };
    Ok(aes128_cmac_tag(data_to_encrypt, &key_bytes))
}

/// Byte-wise equality of two byte vectors.
fn bytes_eq(a: &Vec<u8>, b: &Vec<u8>) -> (r: bool)
    ensures
        r <==> a@ =~= b@,
{
    if a.len() != b.len() {
        return false;
    }
    let mut i: usize = 0;
    while i < a.len()
        invariant
            0 <= i <= a@.len(),
            a@.len() == b@.len(),
            forall|j: int| 0 <= j < i ==> a@[j] == b@[j],
        decreases a@.len() - i,
    {
        if a[i] != b[i] {
            return false;
        }
        i = i + 1;
    }
    true
}

/// Checks a received AES-128-CMAC tag: true exactly when the key
/// denotes 16 bytes and the tag equals the tag of the data under it.
pub fn verify_aes128_cmac(data_to_verify: &Vec<u8>, tag: Vec<u8>, key: &str) -> (r: bool)
    ensures
        r <==> (spec_key_ok(key@) && tag@ =~= spec_aes128_cmac(data_to_verify@, spec_key_bytes(
            key@,
        ))),
{
    match encrypt_aes128_cmac(data_to_verify, key) {
        Ok(expected) => bytes_eq(&tag, &expected),
        Err(_) => false,
    }
}

} // verus!
