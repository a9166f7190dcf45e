//! Trusted boundary to the cryptographic and platform crates.
//!
//! Every function here is `external_body`: its body makes exactly the outside
//! call named in its doc comment, and its contract states what that call's
//! source and documentation promise. Results that have no short mathematical
//! statement (a key-derivation output, a digest, an encoding) are given
//! uninterpreted names; the verified modules reason over those names.

use vstd::prelude::*;
use vstd::utf8::valid_utf8;
use vstd::utf8::encode_utf8;

use base64::Engine;
use chacha20poly1305::aead::Aead;
use chacha20poly1305::ChaCha20Poly1305;
use chacha20poly1305::KeyInit;
use chacha20poly1305::Nonce;
use hmac::digest::Mac;
use sha2::Digest;

verus! {

// ---------------------------------------------------------------------------
// Key derivation (pbkdf2)
// ---------------------------------------------------------------------------

/// The 32-byte PBKDF2-HMAC-SHA256 output for a password, salt and round count.
pub uninterp spec fn pbkdf2_sha256_of(password: Seq<u8>, salt: Seq<u8>, rounds: u32) -> Seq<u8>;

/// Relies on pbkdf2::pbkdf2_hmac with SHA-256: fills the 32-byte output
/// buffer deterministically from password, salt and round count, and cannot
/// fail, since HMAC accepts keys of any length.
#[verifier::external_body]
pub fn pbkdf2_sha256(password: &[u8], salt: &[u8], rounds: u32) -> (r: Vec<u8>)
    ensures
        r@ == pbkdf2_sha256_of(password@, salt@, rounds),
        r@.len() == 32,
{
    let mut key = [0u8; 32];
    pbkdf2::pbkdf2_hmac::<sha2::Sha256>(password, salt, rounds, &mut key);
    key.to_vec()
}

// ---------------------------------------------------------------------------
// Authenticated encryption (chacha20poly1305)
// ---------------------------------------------------------------------------

/// The ChaCha20-Poly1305 ciphertext (with appended tag) for a key, nonce and
/// plaintext.
pub uninterp spec fn chacha_ct_of(key: Seq<u8>, nonce: Seq<u8>, pt: Seq<u8>) -> Seq<u8>;

/// The ChaCha20-Poly1305 decryption outcome for a key, nonce and ciphertext:
/// `Some(plaintext)` when the tag verifies, `None` otherwise.
pub uninterp spec fn chacha_pt_of(key: Seq<u8>, nonce: Seq<u8>, ct: Seq<u8>) -> Option<Seq<u8>>;

/// Relies on chacha20poly1305::ChaCha20Poly1305 through aead::Aead::encrypt:
/// it succeeds on every plaintext below the ChaCha20 block-counter bound of
/// 64 * (2^32 - 1) bytes; the returned ciphertext is the plaintext plus the
/// 16-byte Poly1305 tag, decrypts back to the plaintext under the same key
/// and nonce, and fails authentication under any other 256-bit key.
#[verifier::external_body]
pub fn chacha_encrypt(key: &[u8], nonce: &[u8], plaintext: &[u8]) -> (r: Option<Vec<u8>>)
    requires
        key@.len() == 32,
        nonce@.len() == 12,
    ensures
        plaintext@.len() < 274877906880 ==> r is Some,
        r matches Some(ct) ==> {
            &&& ct@ == chacha_ct_of(key@, nonce@, plaintext@)
            &&& ct@.len() == plaintext@.len() + 16
            &&& chacha_pt_of(key@, nonce@, ct@) == Some(plaintext@)
            &&& forall|k2: Seq<u8>|
                k2.len() == 32 && k2 != key@ ==> #[trigger] chacha_pt_of(k2, nonce@, ct@) is None
        },
{
    let cipher = ChaCha20Poly1305::new_from_slice(key).ok()?;
    let nonce_arr = Nonce::try_from(nonce).ok()?;
    cipher.encrypt(&nonce_arr, plaintext).ok()
}

/// Relies on chacha20poly1305::ChaCha20Poly1305 through aead::Aead::decrypt:
/// returns the plaintext exactly when the tag verifies for this key, nonce and
/// ciphertext, and fails exactly when it does not.
#[verifier::external_body]
pub fn chacha_decrypt(key: &[u8], nonce: &[u8], ciphertext: &[u8]) -> (r: Option<Vec<u8>>)
    requires
        key@.len() == 32,
        nonce@.len() == 12,
    ensures
        match r {
            Some(pt) => chacha_pt_of(key@, nonce@, ciphertext@) == Some(pt@),
            None => chacha_pt_of(key@, nonce@, ciphertext@) is None,
        },
{
    let cipher = ChaCha20Poly1305::new_from_slice(key).ok()?;
    let nonce_arr = Nonce::try_from(nonce).ok()?;
    cipher.decrypt(&nonce_arr, ciphertext).ok()
}

// ---------------------------------------------------------------------------
// Base64 (standard alphabet with padding, and URL-safe without padding)
// ---------------------------------------------------------------------------

/// The standard (padded) base64 rendering of a byte string.
pub uninterp spec fn b64_of(bytes: Seq<u8>) -> Seq<char>;

/// The standard (padded) base64 decoding of a text: `Some` exactly on
/// canonical encodings, since the STANDARD engine rejects both bad padding and
/// nonzero trailing bits.
pub uninterp spec fn b64_bytes_of(s: Seq<char>) -> Option<Seq<u8>>;

/// Relies on base64's STANDARD engine, Engine::encode: a canonical padded
/// encoding (four output characters per three input bytes), which that
/// engine's own decode inverts.
#[verifier::external_body]
pub fn b64_encode(bytes: &[u8]) -> (r: String)
    ensures
        r@ == b64_of(bytes@),
        r@.len() == 4 * ((bytes@.len() + 2) / 3),
        b64_bytes_of(r@) == Some(bytes@),
{
    base64::engine::general_purpose::STANDARD.encode(bytes)
}

/// Relies on base64's STANDARD engine, Engine::decode: succeeds exactly on a
/// canonical padded encoding and returns the bytes it encodes.
#[verifier::external_body]
pub fn b64_decode(s: &str) -> (r: Option<Vec<u8>>)
    ensures
        match r {
            Some(b) => b64_bytes_of(s@) == Some(b@) && s@ == b64_of(b@),
            None => b64_bytes_of(s@) is None,
        },
{
    base64::engine::general_purpose::STANDARD.decode(s).ok()
}

/// The URL-safe unpadded base64 rendering of a byte string.
pub uninterp spec fn b64url_of(bytes: Seq<u8>) -> Seq<char>;

/// The URL-safe unpadded base64 decoding of a text: `Some` exactly on
/// canonical encodings.
pub uninterp spec fn b64url_bytes_of(s: Seq<char>) -> Option<Seq<u8>>;

/// Relies on base64's URL_SAFE_NO_PAD engine, Engine::encode: a canonical
/// unpadded encoding over the URL-safe alphabet (letters, digits, `-` and
/// `_`, so in particular never a colon), which that engine's own decode
/// inverts.
#[verifier::external_body]
pub fn b64url_encode(bytes: &[u8]) -> (r: String)
    ensures
        r@ == b64url_of(bytes@),
        b64url_bytes_of(r@) == Some(bytes@),
        forall|i: int| 0 <= i < r@.len() ==> r@[i] != ':',
{
    base64::engine::general_purpose::URL_SAFE_NO_PAD.encode(bytes)
}

/// Relies on base64's URL_SAFE_NO_PAD engine, Engine::decode: succeeds exactly
/// on a canonical unpadded encoding and returns the bytes it encodes.
#[verifier::external_body]
pub fn b64url_decode(s: &str) -> (r: Option<Vec<u8>>)
    ensures
        match r {
            Some(b) => b64url_bytes_of(s@) == Some(b@) && s@ == b64url_of(b@),
            None => b64url_bytes_of(s@) is None,
        },
{
    base64::engine::general_purpose::URL_SAFE_NO_PAD.decode(s).ok()
}

// ---------------------------------------------------------------------------
// UTF-8 (std String::from_utf8, against vstd's UTF-8 model)
// ---------------------------------------------------------------------------

/// Relies on std String::from_utf8: succeeds exactly on valid UTF-8 and
/// returns the characters those bytes encode.
#[verifier::external_body]
pub fn string_from_utf8(bytes: Vec<u8>) -> (r: Option<String>)
    ensures
        match r {
            Some(s) => valid_utf8(bytes@) && encode_utf8(s@) == bytes@,
            None => !valid_utf8(bytes@),
        },
{
    String::from_utf8(bytes).ok()
}

// ---------------------------------------------------------------------------
// Randomness (rand)
// ---------------------------------------------------------------------------

/// Relies on rand::random for a `[u8; 12]` array: twelve bytes from the
/// thread-local generator; nothing is promised beyond the length.
#[verifier::external_body]
pub fn random_nonce() -> (r: Vec<u8>)
    ensures
        r@.len() == 12,
{
    rand::random::<[u8; 12]>().to_vec()
}

// ---------------------------------------------------------------------------
// Digest and MAC (sha2, hmac)
// ---------------------------------------------------------------------------

/// The SHA-256 digest of a byte string.
pub uninterp spec fn sha256_of(data: Seq<u8>) -> Seq<u8>;

/// Relies on sha2::Sha256 through digest::Digest::digest: the 32-byte SHA-256
/// digest, a function of the input alone.
#[verifier::external_body]
pub fn sha256(data: &[u8]) -> (r: Vec<u8>)
    ensures
        r@ == sha256_of(data@),
        r@.len() == 32,
{
    sha2::Sha256::digest(data).to_vec()
}

/// The HMAC-SHA256 tag for a key and message.
pub uninterp spec fn hmac_sha256_of(key: Seq<u8>, msg: Seq<u8>) -> Seq<u8>;

/// Relies on hmac::Hmac with SHA-256 (digest::Mac: new_from_slice, update,
/// finalize): the 32-byte tag, a function of key and message alone;
/// initialization accepts keys of any length.
#[verifier::external_body]
pub fn hmac_sha256(key: &[u8], msg: &[u8]) -> (r: Vec<u8>)
    ensures
        r@ == hmac_sha256_of(key@, msg@),
        r@.len() == 32,
{
    let mut mac = hmac::Hmac::<sha2::Sha256>::new_from_slice(key)
        .expect("HMAC accepts keys of any length");
    mac.update(msg);
    mac.finalize().into_bytes().to_vec()
}

/// Relies on hmac::Hmac with SHA-256 (digest::Mac::verify_slice): accepts, in
/// constant time, exactly the tag computed for this key and message.
#[verifier::external_body]
pub fn hmac_sha256_verify(key: &[u8], msg: &[u8], tag: &[u8]) -> (r: bool)
    ensures
        r == (tag@ == hmac_sha256_of(key@, msg@)),
{
    let mut mac = hmac::Hmac::<sha2::Sha256>::new_from_slice(key)
        .expect("HMAC accepts keys of any length");
    mac.update(msg);
    mac.verify_slice(tag).is_ok()
}

// ---------------------------------------------------------------------------
// Identifiers and clock (uuid, chrono)
// ---------------------------------------------------------------------------

/// Relies on uuid::Uuid::new_v4 and its Display form: the hyphenated
/// rendering, 36 ASCII characters of lowercase hex digits and hyphens, so in
/// particular never a colon.
#[verifier::external_body]
pub fn new_uuid_string() -> (r: String)
    ensures
        r@.len() == 36,
        forall|i: int| 0 <= i < r@.len() ==> r@[i] != ':',
{
    uuid::Uuid::new_v4().to_string()
}

/// Relies on chrono::Utc::now and DateTime::timestamp: seconds since the Unix
/// epoch; nothing is promised of the value.
#[verifier::external_body]
pub fn now_unix_timestamp() -> (r: i64)
{
    chrono::Utc::now().timestamp()
}

/// Relies on chrono::Local::now and DateTime::format: the current wall-clock
/// time rendered as "%Y/%m/%d %H:%M:%S"; nothing is promised of the value.
#[verifier::external_body]
pub fn now_local_formatted() -> (r: String)
{
    chrono::Local::now().format("%Y/%m/%d %H:%M:%S").to_string()
}

/// Relies on chrono::TimeDelta::try_seconds, DateTime::checked_add_signed and
/// DateTime::format: the current local time shifted by the given seconds,
/// rendered as "%Y/%m/%d %H:%M:%S"; `None` when the shift is out of chrono's
/// range; nothing is promised of the value.
#[verifier::external_body]
pub fn now_local_plus_seconds_formatted(secs: i64) -> (r: Option<String>)
{
    let delta = chrono::TimeDelta::try_seconds(secs)?;
    let when = chrono::Local::now().checked_add_signed(delta)?;
    Some(when.format("%Y/%m/%d %H:%M:%S").to_string())
}

// ---------------------------------------------------------------------------
// URL handling (url, urlencoding)
// ---------------------------------------------------------------------------

/// The outcome of URL parsing on a text: `None` when it is not a valid
/// absolute URL, otherwise the scheme and the percent-decoded query pairs in
/// order.
pub uninterp spec fn parsed_url_of(url: Seq<char>) -> Option<(Seq<char>, Seq<(Seq<char>, Seq<char>)>)>;

/// Relies on url::Url::parse, Url::scheme and Url::query_pairs: the scheme of
/// the parsed URL and its percent-decoded query pairs in order, all functions
/// of the URL text alone.
#[verifier::external_body]
pub fn parse_url_parts(url: &str) -> (r: Option<(String, Vec<(String, String)>)>)
    ensures
        match r {
            Some(p) => parsed_url_of(url@) == Some((p.0.deep_view(), p.1.deep_view())),
            None => parsed_url_of(url@) is None,
        },
{
    let parsed = url::Url::parse(url).ok()?;
    let scheme = parsed.scheme().to_string();
    let pairs = parsed.query_pairs().map(|(k, v)| (k.into_owned(), v.into_owned())).collect();
    Some((scheme, pairs))
}

/// The percent-encoding of a text, as urlencoding renders it.
pub uninterp spec fn urlencoded_of(s: Seq<char>) -> Seq<char>;

/// Relies on urlencoding::encode: percent-encoding, a function of the text
/// alone.
#[verifier::external_body]
pub fn urlencode(s: &str) -> (r: String)
    ensures
        r@ == urlencoded_of(s@),
{
    urlencoding::encode(s).into_owned()
}

// ---------------------------------------------------------------------------
// Hex (hex)
// ---------------------------------------------------------------------------

/// The lowercase hex digit for a value below 16.
pub open spec fn hex_digit(n: u8) -> char
    recommends
        n < 16,
{
    if n < 10 {
        ((n + 48) as char)
    } else {
        ((n + 87) as char)
    }
}

/// The lowercase hex rendering of a byte string: two digits per byte, high
/// nibble first.
pub open spec fn hex_of(bytes: Seq<u8>) -> Seq<char> {
    Seq::new(
        bytes.len() * 2,
        |i: int| if i % 2 == 0 {
            hex_digit(bytes[i / 2] / 16)
        } else {
            hex_digit(bytes[i / 2] % 16)
        },
    )
}

/// Relies on hex::encode: the lowercase hex rendering, two digits per byte,
/// high nibble first.
#[verifier::external_body]
pub fn hex_encode(bytes: &[u8]) -> (r: String)
    ensures
        r@ == hex_of(bytes@),
{
    hex::encode(bytes)
}

} // verus!
