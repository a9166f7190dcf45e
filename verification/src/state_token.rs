//! Signed, time-bounded OAuth state tokens.
//!
//! A token is `timestamp:nonce:signature` where the signature is the
//! URL-safe base64 of the HMAC-SHA256 of `timestamp:nonce` under a key
//! derived from the device identifier. Validation demands that shape, a
//! timestamp within 300 seconds of now in either direction, and a matching
//! signature, compared in constant time.

use vstd::prelude::*;
use vstd::utf8::encode_utf8;

use crate::errors::ValidationError;
use crate::primitives::b64url_bytes_of;
use crate::primitives::b64url_decode;
use crate::primitives::b64url_encode;
use crate::primitives::b64url_of;
use crate::primitives::hmac_sha256;
use crate::primitives::hmac_sha256_of;
use crate::primitives::hmac_sha256_verify;
use crate::primitives::new_uuid_string;
use crate::primitives::now_unix_timestamp;
use crate::primitives::sha256;
use crate::primitives::sha256_of;
use crate::text::dec_of_int;
use crate::text::dec_of_nat;
use crate::text::i64_to_string;
use crate::text::is_digit;
use crate::text::lemma_dec_of_nat_digits;
use crate::text::lemma_parse_dec_of_int;
use crate::text::parse_i64;
use crate::text::parse_i64_spec;

verus! {

/// How long a state token stays valid, in seconds.
pub const STATE_VALIDITY_SECONDS: i64 = 300;

/// The HMAC key for a device: SHA-256 over the identifier's bytes followed by
/// the fixed domain-separation string.
pub open spec fn hmac_key_of(machine_id: Seq<char>) -> Seq<u8> {
    sha256_of(encode_utf8(machine_id) + encode_utf8("kirohub-state-hmac-key"@))
}

/// Derives the per-device HMAC key for state tokens.
pub fn get_hmac_key(machine_id: &str) -> (r: Vec<u8>)
    ensures
        r@ == hmac_key_of(machine_id@),
        r@.len() == 32,
{
    let mut data = machine_id.as_bytes_vec();
    let mut tail = "kirohub-state-hmac-key".as_bytes_vec();
    data.append(&mut tail);
    proof {
        assert(data@ =~= encode_utf8(machine_id@) + encode_utf8("kirohub-state-hmac-key"@));
    }
    sha256(data.as_slice())
}

/// The signed part of a token: `timestamp:nonce`.
pub open spec fn payload_of(ts: int, nonce: Seq<char>) -> Seq<char> {
    dec_of_int(ts) + seq![':'] + nonce
}

/// The full token a device issues for a timestamp and nonce.
pub open spec fn state_token_of(machine_id: Seq<char>, ts: int, nonce: Seq<char>) -> Seq<char> {
    payload_of(ts, nonce) + seq![':'] + b64url_of(
        hmac_sha256_of(hmac_key_of(machine_id), encode_utf8(payload_of(ts, nonce))),
    )
}

/// Issues a fresh signed state token: current timestamp, random nonce,
/// HMAC signature under this device's key. The token validates on this device
/// at any time within the 300-second window around its timestamp.
pub fn generate_secure_state(machine_id: &str) -> (r: String)
    ensures
        exists|ts: i64, nonce: Seq<char>|
            {
                &&& #[trigger] state_token_of(machine_id@, ts as int, nonce) == r@
                &&& nonce.len() == 36
                &&& (forall|i: int| 0 <= i < nonce.len() ==> nonce[i] != ':')
                &&& (forall|now: int|
                    -(STATE_VALIDITY_SECONDS as int) <= now - ts <= STATE_VALIDITY_SECONDS as int
                        ==> state_validation(r@, machine_id@, now) is Ok)
            },
{
    let timestamp = now_unix_timestamp();
    let nonce = new_uuid_string();
    let mut payload = i64_to_string(timestamp);
    payload.append(":");
    payload.append(nonce.as_str());
    proof {
        reveal_strlit(":");
        assert(":"@ =~= seq![':']);
        assert(payload@ =~= payload_of(timestamp as int, nonce@));
    }
    let key = get_hmac_key(machine_id);
    let mac = hmac_sha256(key.as_slice(), payload.as_str().as_bytes());
    let sig = b64url_encode(mac.as_slice());
    let mut state = payload;
    state.append(":");
    state.append(sig.as_str());
    proof {
        assert(state@ =~= state_token_of(machine_id@, timestamp as int, nonce@));
        assert forall|now: int|
            -(STATE_VALIDITY_SECONDS as int) <= now - timestamp <= STATE_VALIDITY_SECONDS
                as int implies state_validation(state@, machine_id@, now) is Ok by {
            lemma_fresh_token_validates(machine_id@, timestamp, nonce@, now);
        }
    }
    state
}

/// The largest index at which `c` occurs in `s`, or -1.
pub open spec fn last_index_of(s: Seq<char>, c: char) -> int
    decreases s.len(),
{
    if s.len() == 0 {
        -1
    } else if s.last() == c {
        s.len() - 1
    } else {
        last_index_of(s.drop_last(), c)
    }
}

/// The smallest index at which `c` occurs in `s`, or -1.
pub open spec fn first_index_of(s: Seq<char>, c: char) -> int
    decreases s.len(),
{
    if s.len() == 0 {
        -1
    } else if s[0] == c {
        0
    } else {
        let rest = first_index_of(s.drop_first(), c);
        if rest < 0 {
            -1
        } else {
            rest + 1
        }
    }
}

proof fn lemma_last_index_of(s: Seq<char>, c: char)
    ensures
        last_index_of(s, c) == -1 ==> forall|i: int| 0 <= i < s.len() ==> s[i] != c,
        last_index_of(s, c) >= 0 ==> {
            &&& last_index_of(s, c) < s.len()
            &&& s[last_index_of(s, c)] == c
            &&& forall|i: int| last_index_of(s, c) < i < s.len() ==> s[i] != c
        },
        forall|j: int| 0 <= j < s.len() && #[trigger] s[j] == c ==> j <= last_index_of(s, c),
        last_index_of(s, c) >= -1,
    decreases s.len(),
{
    if s.len() > 0 && s.last() != c {
        lemma_last_index_of(s.drop_last(), c);
        assert forall|i: int|
            last_index_of(s, c) >= 0 && last_index_of(s, c) < i < s.len() implies s[i] != c by {
            if i < s.len() - 1 {
                assert(s[i] == s.drop_last()[i]);
            }
        }
        assert forall|i: int| last_index_of(s, c) == -1 && 0 <= i < s.len() implies s[i] != c by {
            if i < s.len() - 1 {
                assert(s[i] == s.drop_last()[i]);
            }
        }
        assert forall|j: int| 0 <= j < s.len() && #[trigger] s[j] == c implies j <= last_index_of(
            s,
            c,
        ) by {
            assert(j < s.len() - 1);
            assert(s.drop_last()[j] == c);
        }
    }
}

proof fn lemma_first_index_of(s: Seq<char>, c: char)
    ensures
        first_index_of(s, c) == -1 ==> forall|i: int| 0 <= i < s.len() ==> s[i] != c,
        first_index_of(s, c) >= 0 ==> {
            &&& first_index_of(s, c) < s.len()
            &&& s[first_index_of(s, c)] == c
            &&& forall|i: int| 0 <= i < first_index_of(s, c) ==> s[i] != c
        },
        forall|j: int| 0 <= j < s.len() && #[trigger] s[j] == c ==> first_index_of(s, c) >= 0
            && first_index_of(s, c) <= j,
        first_index_of(s, c) >= -1,
    decreases s.len(),
{
    if s.len() > 0 && s[0] != c {
        lemma_first_index_of(s.drop_first(), c);
        assert forall|i: int|
            first_index_of(s, c) >= 0 && 0 <= i < first_index_of(s, c) implies s[i] != c by {
            if i > 0 {
                assert(s[i] == s.drop_first()[i - 1]);
            }
        }
        assert forall|i: int| first_index_of(s, c) == -1 && 0 <= i < s.len() implies s[i] != c by {
            if i > 0 {
                assert(s[i] == s.drop_first()[i - 1]);
            }
        }
        assert forall|j: int| 0 <= j < s.len() && #[trigger] s[j] == c implies first_index_of(s, c)
            >= 0 && first_index_of(s, c) <= j by {
            assert(j > 0);
            assert(s.drop_first()[j - 1] == c);
        }
    }
}

proof fn lemma_last_colon_of_concat(a: Seq<char>, b: Seq<char>)
    requires
        forall|i: int| 0 <= i < b.len() ==> b[i] != ':',
    ensures
        last_index_of(a + seq![':'] + b, ':') == a.len(),
    decreases b.len(),
{
    let s = a + seq![':'] + b;
    if b.len() == 0 {
        assert(s.len() == a.len() + 1);
        assert(s.last() == ':');
    } else {
        assert(s.last() == b.last());
        assert(s.last() != ':');
        assert(s.drop_last() =~= a + seq![':'] + b.drop_last());
        assert forall|i: int| 0 <= i < b.drop_last().len() implies b.drop_last()[i] != ':' by {
            assert(b.drop_last()[i] == b[i]);
        }
        lemma_last_colon_of_concat(a, b.drop_last());
    }
}

proof fn lemma_first_colon_of_concat(a: Seq<char>, b: Seq<char>)
    requires
        forall|i: int| 0 <= i < a.len() ==> a[i] != ':',
    ensures
        first_index_of(a + seq![':'] + b, ':') == a.len(),
    decreases a.len(),
{
    let s = a + seq![':'] + b;
    if a.len() == 0 {
        assert(s[0] == ':');
    } else {
        assert(s[0] == a[0]);
        assert(s[0] != ':');
        assert(s.drop_first() =~= a.drop_first() + seq![':'] + b);
        assert forall|i: int| 0 <= i < a.drop_first().len() implies a.drop_first()[i] != ':' by {
            assert(a.drop_first()[i] == a[i + 1]);
        }
        lemma_first_colon_of_concat(a.drop_first(), b);
    }
}

/// The exact outcome of validating a state token against a device identifier
/// at a given time.
pub open spec fn state_validation(state: Seq<char>, machine_id: Seq<char>, now: int) -> Result<
    (),
    ValidationError,
> {
    let lc = last_index_of(state, ':');
    if lc < 0 {
        Err(ValidationError::Format)
    } else {
        let payload = state.take(lc);
        let sig = state.skip(lc + 1);
        let fc = first_index_of(payload, ':');
        if fc < 0 || first_index_of(payload.skip(fc + 1), ':') >= 0 {
            Err(ValidationError::PayloadFormat)
        } else {
            match parse_i64_spec(payload.take(fc)) {
                None => Err(ValidationError::Timestamp),
                Some(ts) => if now - ts > STATE_VALIDITY_SECONDS as int || ts - now
                    > STATE_VALIDITY_SECONDS as int {
                    Err(ValidationError::Expired)
                } else {
                    match b64url_bytes_of(sig) {
                        None => Err(ValidationError::HmacEncoding),
                        Some(tag) => if tag == hmac_sha256_of(
                            hmac_key_of(machine_id),
                            encode_utf8(payload),
                        ) {
                            Ok(())
                        } else {
                            Err(ValidationError::SignatureMismatch)
                        },
                    }
                },
            }
        }
    }
}

/// Finds the last colon of `s`, exactly as `last_index_of` does.
fn find_last_colon(s: &str) -> (r: Option<usize>)
    ensures
        match r {
            Some(i) => i as int == last_index_of(s@, ':'),
            None => last_index_of(s@, ':') == -1,
        },
{
    let len = s.unicode_len();
    let mut k: usize = len;
    while k > 0
        invariant
            0 <= k <= len,
            len == s@.len(),
            forall|i: int| k <= i < len ==> s@[i] != ':',
        decreases k,
    {
        k = k - 1;
        if s.get_char(k) == ':' {
            proof {
                lemma_last_index_of(s@, ':');
                let li = last_index_of(s@, ':');
                assert(s@[k as int] == ':');
                assert(k <= li);
                if li > k {
                    assert(s@[li] == ':');
                    assert(s@[li] != ':');
                }
            }
            return Some(k);
        }
    }
    proof {
        lemma_last_index_of(s@, ':');
        let li = last_index_of(s@, ':');
        if li >= 0 {
            assert(0 <= li < s@.len());
            assert(s@[li] == ':');
            assert(s@[li] != ':');
        }
        assert(li == -1);
    }
    None
}

/// Finds the first colon of `s` at or after `from`, exactly as
/// `first_index_of` on `s` past `from` does.
fn find_first_colon_from(s: &str, from: usize) -> (r: Option<usize>)
    requires
        from <= s@.len(),
    ensures
        match r {
            Some(i) => from <= i && i as int - from == first_index_of(s@.skip(from as int), ':')
                && i < s@.len(),
            None => first_index_of(s@.skip(from as int), ':') == -1,
        },
{
    let len = s.unicode_len();
    let mut k: usize = from;
    while k < len
        invariant
            from <= k <= len,
            len == s@.len(),
            forall|i: int| from <= i < k ==> s@[i] != ':',
        decreases len - k,
    {
        if s.get_char(k) == ':' {
            proof {
                let rest = s@.skip(from as int);
                lemma_first_index_of(rest, ':');
                assert(rest[k - from] == s@[k as int]);
                assert forall|i: int| 0 <= i < k - from implies rest[i] != ':' by {
                    assert(rest[i] == s@[from + i]);
                }
                let fi = first_index_of(rest, ':');
                assert(rest[k - from] == ':');
                assert(fi >= 0 && fi <= k - from);
                if fi < k - from {
                    assert(rest[fi] == ':');
                    assert(rest[fi] != ':');
                }
            }
            return Some(k);
        }
        k = k + 1;
    }
    proof {
        let rest = s@.skip(from as int);
        lemma_first_index_of(rest, ':');
        assert forall|i: int| 0 <= i < rest.len() implies rest[i] != ':' by {
            assert(rest[i] == s@[from + i]);
        }
        if first_index_of(rest, ':') >= 0 {
            assert(rest[first_index_of(rest, ':')] != ':');
        }
    }
    None
}

/// Validates a state token's shape, timestamp and HMAC signature against this
/// device at time `now`. Returns exactly the outcome `state_validation`
/// describes; the signature comparison is constant-time.
pub fn validate_state_signature(state: &str, machine_id: &str, now: i64) -> (r: Result<
    (),
    ValidationError,
>)
    ensures
        r == state_validation(state@, machine_id@, now as int),
{
    let lc = match find_last_colon(state) {
        Some(i) => i,
        None => { return Err(ValidationError::Format); },
    };
    let len = state.unicode_len();
    proof {
        lemma_last_index_of(state@, ':');
        assert(lc < len);
    }
    let payload = state.substring_char(0, lc);
    let sig = state.substring_char(lc + 1, len);
    proof {
        assert(payload@ =~= state@.take(lc as int));
        assert(sig@ =~= state@.skip(lc + 1 as int));
    }
    let fc = match find_first_colon_from(payload, 0) {
        Some(i) => i,
        None => {
            proof {
                assert(payload@.skip(0) =~= payload@);
            }
            return Err(ValidationError::PayloadFormat);
        },
    };
    proof {
        assert(payload@.skip(0) =~= payload@);
    }
    match find_first_colon_from(payload, fc + 1) {
        Some(_) => { return Err(ValidationError::PayloadFormat); },
        None => {},
    }
    let ts_txt = payload.substring_char(0, fc);
    proof {
        assert(ts_txt@ =~= payload@.take(fc as int));
    }
    let ts = match parse_i64(ts_txt) {
        Some(v) => v,
        None => { return Err(ValidationError::Timestamp); },
    };
    let diff: i128 = (now as i128) - (ts as i128);
    if diff > STATE_VALIDITY_SECONDS as i128 || diff < -(STATE_VALIDITY_SECONDS as i128) {
        return Err(ValidationError::Expired);
    }
    let tag = match b64url_decode(sig) {
        Some(t) => t,
        None => { return Err(ValidationError::HmacEncoding); },
    };
    let key = get_hmac_key(machine_id);
    if hmac_sha256_verify(key.as_slice(), payload.as_bytes(), tag.as_slice()) {
        Ok(())
    } else {
        Err(ValidationError::SignatureMismatch)
    }
}

/// Generation and validation round-trip: a token this device issued for
/// timestamp `ts` validates on this device at any time within the 300-second
/// window around `ts`. The two facts about the signature text are what the
/// URL-safe base64 encoder guarantees of its output.
pub proof fn lemma_fresh_token_validates(machine_id: Seq<char>, ts: i64, nonce: Seq<char>, now: int)
    requires
        nonce.len() > 0,
        forall|i: int| 0 <= i < nonce.len() ==> nonce[i] != ':',
        ({
            let mac = hmac_sha256_of(hmac_key_of(machine_id), encode_utf8(payload_of(ts as int, nonce)));
            &&& (forall|i: int| 0 <= i < b64url_of(mac).len() ==> b64url_of(mac)[i] != ':')
            &&& b64url_bytes_of(b64url_of(mac)) == Some(mac)
        }),
        -(STATE_VALIDITY_SECONDS as int) <= now - ts <= STATE_VALIDITY_SECONDS as int,
    ensures
        state_validation(state_token_of(machine_id, ts as int, nonce), machine_id, now) is Ok,
{
    let payload = payload_of(ts as int, nonce);
    let mac = hmac_sha256_of(hmac_key_of(machine_id), encode_utf8(payload));
    let sig = b64url_of(mac);
    let state = state_token_of(machine_id, ts as int, nonce);
    assert(state =~= payload + seq![':'] + sig);
    lemma_last_colon_of_concat(payload, sig);
    let lc = last_index_of(state, ':');
    assert(lc == payload.len());
    assert(state.take(lc) =~= payload);
    assert(state.skip(lc + 1) =~= sig);
    let dec = dec_of_int(ts as int);
    assert forall|i: int| 0 <= i < dec.len() implies dec[i] != ':' by {
        if ts >= 0 {
            lemma_dec_of_nat_digits(ts as int);
            assert(is_digit(dec[i]));
        } else {
            lemma_dec_of_nat_digits(-(ts as int));
            if i > 0 {
                assert(dec[i] == dec_of_nat(-(ts as int))[i - 1]);
                assert(is_digit(dec[i]));
            }
        }
    }
    lemma_first_colon_of_concat(dec, nonce);
    let fc = first_index_of(payload, ':');
    assert(fc == dec.len());
    assert(payload.take(fc) =~= dec);
    assert(payload.skip(fc + 1) =~= nonce);
    lemma_first_index_of(nonce, ':');
    if first_index_of(nonce, ':') >= 0 {
        assert(nonce[first_index_of(nonce, ':')] != ':');
    }
    lemma_parse_dec_of_int(ts as int);
    assert(parse_i64_spec(payload.take(fc)) == Some(ts as int));
    assert(b64url_bytes_of(state.skip(lc + 1)) == Some(mac));
}

/// A token that validates carries a timestamp within the validity window of
/// `now`: any token older (or newer) than 300 seconds is rejected.
pub proof fn lemma_stale_token_rejected(state: Seq<char>, machine_id: Seq<char>, now: int)
    requires
        state_validation(state, machine_id, now) is Ok,
    ensures
        ({
            let payload = state.take(last_index_of(state, ':'));
            let ts = parse_i64_spec(payload.take(first_index_of(payload, ':')))->Some_0;
            -(STATE_VALIDITY_SECONDS as int) <= now - ts <= STATE_VALIDITY_SECONDS as int
        }),
{
}

/// A token that validates carries exactly the HMAC of its payload under this
/// device's key: a signature whose decoding differs in any way is rejected.
pub proof fn lemma_tampered_signature_rejected(state: Seq<char>, machine_id: Seq<char>, now: int)
    requires
        state_validation(state, machine_id, now) is Ok,
    ensures
        ({
            let lc = last_index_of(state, ':');
            b64url_bytes_of(state.skip(lc + 1)) == Some(
                hmac_sha256_of(hmac_key_of(machine_id), encode_utf8(state.take(lc))),
            )
        }),
{
}

} // verus!
