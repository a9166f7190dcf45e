//! Encryption-at-rest of single secret strings.
//!
//! A secret is encrypted under a 256-bit key derived from the device
//! identifier (PBKDF2-HMAC-SHA256, fixed salt, 100000 rounds) with
//! ChaCha20-Poly1305 and a fresh random 96-bit nonce, and stored as base64
//! text. Decryption under any other key fails authentication.

use vstd::prelude::*;
use vstd::utf8::encode_utf8;
use vstd::utf8::decode_utf8;
use vstd::utf8::valid_utf8;
use vstd::utf8::encode_utf8_valid_utf8;
use vstd::utf8::encode_utf8_decode_utf8;

use crate::errors::CryptoError;
use crate::primitives::b64_bytes_of;
use crate::primitives::b64_decode;
use crate::primitives::b64_encode;
use crate::primitives::chacha_decrypt;
use crate::primitives::chacha_encrypt;
use crate::primitives::chacha_pt_of;
use crate::primitives::pbkdf2_sha256;
use crate::primitives::pbkdf2_sha256_of;
use crate::primitives::random_nonce;
use crate::primitives::string_from_utf8;

verus! {

/// One encrypted secret field: base64 text of ciphertext-with-tag and nonce.
#[derive(Debug, Clone)]
pub struct EncryptedData {
    /// Base64 (standard, padded) of the ChaCha20-Poly1305 ciphertext and tag.
    pub ciphertext: String,
    /// Base64 (standard, padded) of the 96-bit nonce.
    pub nonce: String,
}

/// The mathematical content of an [`EncryptedData`]: both fields as character
/// sequences.
pub struct EncryptedDataView {
    pub ciphertext: Seq<char>,
    pub nonce: Seq<char>,
}

impl View for EncryptedData {
    type V = EncryptedDataView;

    open spec fn view(&self) -> EncryptedDataView {
        EncryptedDataView { ciphertext: self.ciphertext@, nonce: self.nonce@ }
    }
}

/// The key a device identifier derives to: PBKDF2-HMAC-SHA256 over the
/// identifier's bytes with the fixed application salt and 100000 rounds.
pub open spec fn device_key_of(machine_id: Seq<char>) -> Seq<u8> {
    pbkdf2_sha256_of(encode_utf8(machine_id), encode_utf8("KiroHub-V1-Salt-2025"@), 100_000)
}

/// Derives the 256-bit device key from the device identifier. Deterministic:
/// the same identifier always yields the same key.
pub fn derive_key(machine_id: &str) -> (r: Vec<u8>)
    ensures
        r@ == device_key_of(machine_id@),
        r@.len() == 32,
{
    pbkdf2_sha256(machine_id.as_bytes(), "KiroHub-V1-Salt-2025".as_bytes(), 100_000)
}

/// Both stored fields decode from base64 and the nonce has its 12 bytes.
pub open spec fn field_decodes(ef: EncryptedDataView) -> bool {
    &&& b64_bytes_of(ef.ciphertext) is Some
    &&& b64_bytes_of(ef.nonce) is Some
    &&& b64_bytes_of(ef.nonce)->Some_0.len() == 12
}

/// The AEAD outcome for the decoded fields under a key.
pub open spec fn aead_outcome(ef: EncryptedDataView, key: Seq<u8>) -> Option<Seq<u8>>
    recommends
        field_decodes(ef),
{
    chacha_pt_of(key, b64_bytes_of(ef.nonce)->Some_0, b64_bytes_of(ef.ciphertext)->Some_0)
}

/// The authentication tag verifies under this key.
pub open spec fn auth_ok(ef: EncryptedDataView, key: Seq<u8>) -> bool {
    field_decodes(ef) && aead_outcome(ef, key) is Some
}

/// Decryption under this key succeeds outright: fields decode, the tag
/// verifies, and the plaintext bytes are valid UTF-8.
pub open spec fn can_open(ef: EncryptedDataView, key: Seq<u8>) -> bool {
    auth_ok(ef, key) && valid_utf8(aead_outcome(ef, key)->Some_0)
}

/// Decryption under this key succeeds and yields exactly `pt`.
pub open spec fn opens_to(ef: EncryptedDataView, key: Seq<u8>, pt: Seq<char>) -> bool {
    field_decodes(ef) && aead_outcome(ef, key) == Some(encode_utf8(pt))
}

/// Decryption under every other 256-bit key fails authentication.
pub open spec fn sealed_against_others(ef: EncryptedDataView, key: Seq<u8>) -> bool {
    forall|k2: Seq<u8>|
        k2.len() == 32 && k2 != key ==> #[trigger] chacha_pt_of(
            k2,
            b64_bytes_of(ef.nonce)->Some_0,
            b64_bytes_of(ef.ciphertext)->Some_0,
        ) is None
}

/// What a successful encryption of `pt` under `key` guarantees of its output:
/// it opens back to `pt` under `key` and to nothing under any other key.
pub open spec fn encrypts(ef: EncryptedDataView, key: Seq<u8>, pt: Seq<char>) -> bool {
    opens_to(ef, key, pt) && sealed_against_others(ef, key)
}

/// Plaintexts of this many bytes are within the cipher's documented limit
/// (the ChaCha20 block-counter bound of 64 * (2^32 - 1) bytes), below which
/// encryption always succeeds.
pub open spec fn fits_cipher(n: int) -> bool {
    n < 274877906880
}

/// The error decryption reports when it cannot open the field under `key`.
pub open spec fn decrypt_failure(ef: EncryptedDataView, key: Seq<u8>) -> CryptoError {
    if field_decodes(ef) && !auth_ok(ef, key) {
        CryptoError::Authentication
    } else {
        CryptoError::Encoding
    }
}

/// Encrypts a non-empty secret under the key derived from the device
/// identifier, with a fresh random nonce. Empty input is refused; any other
/// plaintext within the cipher's length limit succeeds.
pub fn encrypt_string(plaintext: &str, machine_id: &str) -> (r: Result<EncryptedData, CryptoError>)
    ensures
        plaintext@.len() == 0 <==> (r matches Err(e) && e == CryptoError::EmptyInput),
        r matches Err(e) ==> e is EmptyInput || e is Cipher,
        plaintext@.len() > 0 && fits_cipher(encode_utf8(plaintext@).len() as int) ==> r is Ok,
        r matches Ok(ef) ==> plaintext@.len() > 0 && encrypts(
            ef@,
            device_key_of(machine_id@),
            plaintext@,
        ),
        r matches Ok(ef) ==> ef.nonce@.len() == 16 && ef.ciphertext@.len() == 4 * ((
        encode_utf8(plaintext@).len() + 18) / 3),
{
    if plaintext.unicode_len() == 0 {
        return Err(CryptoError::EmptyInput);
    }
    let key = derive_key(machine_id);
    let nonce = random_nonce();
    match chacha_encrypt(key.as_slice(), nonce.as_slice(), plaintext.as_bytes()) {
        Some(ct) => Ok(EncryptedData {
            ciphertext: b64_encode(ct.as_slice()),
            nonce: b64_encode(nonce.as_slice()),
        }),
        None => Err(CryptoError::Cipher),
    }
}

/// Decrypts a stored field under the key derived from the device identifier.
/// Fails with `Authentication` exactly when the fields decode but the tag does
/// not verify, and with `Encoding` on malformed base64, a wrong-size nonce, or
/// non-UTF-8 plaintext bytes.
pub fn decrypt_string(encrypted: &EncryptedData, machine_id: &str) -> (r: Result<
    String,
    CryptoError,
>)
    ensures
        r is Ok <==> can_open(encrypted@, device_key_of(machine_id@)),
        r matches Ok(p) ==> opens_to(encrypted@, device_key_of(machine_id@), p@),
        r matches Err(e) ==> e == decrypt_failure(encrypted@, device_key_of(machine_id@)),
{
    let key = derive_key(machine_id);
    let ct = match b64_decode(encrypted.ciphertext.as_str()) {
        Some(c) => c,
        None => { return Err(CryptoError::Encoding); },
    };
    let nonce = match b64_decode(encrypted.nonce.as_str()) {
        Some(n) => n,
        None => { return Err(CryptoError::Encoding); },
    };
    if nonce.len() != 12 {
        return Err(CryptoError::Encoding);
    }
    match chacha_decrypt(key.as_slice(), nonce.as_slice(), ct.as_slice()) {
        Some(ptb) => {
            proof {
                assert(aead_outcome(encrypted@, device_key_of(machine_id@)) == Some(ptb@));
            }
            match string_from_utf8(ptb) {
                Some(s) => Ok(s),
                None => Err(CryptoError::Encoding),
            }
        },
        None => Err(CryptoError::Authentication),
    }
}

/// Lifts encryption over an absent value: an absent or empty secret becomes
/// "no field", never an error; a present secret within the cipher's length
/// limit always encrypts.
pub fn encrypt_optional(value: &Option<String>, machine_id: &str) -> (r: Result<
    Option<EncryptedData>,
    CryptoError,
>)
    ensures
        (match value {
            Some(v) => fits_cipher(encode_utf8(v@).len() as int),
            None => true,
        }) ==> r is Ok,
        r matches Ok(o) ==> ((o is None) <==> (value.deep_view() matches Some(s) ==> s.len()
            == 0)),
        r matches Ok(Some(ef)) ==> encrypts(
            ef@,
            device_key_of(machine_id@),
            value.deep_view()->Some_0,
        ),
        r matches Err(e) ==> e is Cipher,
        value is None ==> (r matches Ok(o) && o is None),
{
    match value {
        Some(v) => {
            if v.as_str().unicode_len() == 0 {
                Ok(None)
            } else {
                match encrypt_string(v.as_str(), machine_id) {
                    Ok(ef) => Ok(Some(ef)),
                    Err(e) => Err(e),
                }
            }
        },
        None => Ok(None),
    }
}

/// Lifts decryption over an absent value: an absent field stays absent, never
/// an error.
pub fn decrypt_optional(encrypted: &Option<EncryptedData>, machine_id: &str) -> (r: Result<
    Option<String>,
    CryptoError,
>)
    ensures
        encrypted is None ==> (r matches Ok(o) && o is None),
        r matches Ok(o) ==> ((o is Some) <==> (encrypted is Some)),
        r matches Ok(Some(p)) ==> opens_to(
            (encrypted->Some_0)@,
            device_key_of(machine_id@),
            p@,
        ),
        encrypted matches Some(ef) ==> ((r is Ok) <==> can_open(
            ef@,
            device_key_of(machine_id@),
        )),
        r matches Err(e) ==> encrypted matches Some(ef) && e == decrypt_failure(
            ef@,
            device_key_of(machine_id@),
        ),
{
    match encrypted {
        Some(ef) => {
            match decrypt_string(ef, machine_id) {
                Ok(p) => Ok(Some(p)),
                Err(e) => Err(e),
            }
        },
        None => Ok(None),
    }
}

/// Round trip: a field produced by encrypting `pt` under `key` can be opened
/// under `key`, and opens to `pt` and to nothing else.
pub proof fn lemma_encrypt_decrypt_round_trip(ef: EncryptedDataView, key: Seq<u8>, pt: Seq<char>)
    requires
        encrypts(ef, key, pt),
    ensures
        can_open(ef, key),
        forall|p2: Seq<char>| opens_to(ef, key, p2) ==> p2 == pt,
{
    encode_utf8_valid_utf8(pt);
    assert forall|p2: Seq<char>| opens_to(ef, key, p2) implies p2 == pt by {
        assert(encode_utf8(p2) == encode_utf8(pt));
        encode_utf8_decode_utf8(p2);
        encode_utf8_decode_utf8(pt);
        assert(decode_utf8(encode_utf8(p2)) == decode_utf8(encode_utf8(pt)));
    }
}

/// Wrong key: a field produced by encrypting under `k1` fails authentication
/// under any other 256-bit key `k2`.
pub proof fn lemma_wrong_key_fails(ef: EncryptedDataView, k1: Seq<u8>, k2: Seq<u8>, pt: Seq<char>)
    requires
        encrypts(ef, k1, pt),
        k2.len() == 32,
        k2 != k1,
    ensures
        !can_open(ef, k2),
        decrypt_failure(ef, k2) == CryptoError::Authentication,
{
    assert(chacha_pt_of(
        k2,
        b64_bytes_of(ef.nonce)->Some_0,
        b64_bytes_of(ef.ciphertext)->Some_0,
    ) is None);
}

} // verus!
