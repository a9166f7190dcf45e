//! Vault records and the in-memory vault.
//!
//! A record carries plaintext metadata and a fixed set of nullable secret
//! fields. On disk the vault is a sequence of records in the encrypted V2
//! shape; loading decrypts each record independently and skips the ones that
//! fail, saving re-encrypts every record with fresh nonces. The store counts
//! every triggered persistence in `save_count`; the embedder writes the file
//! whenever that counter moves.

use vstd::prelude::*;

use vstd::utf8::encode_utf8;

use crate::crypto::EncryptedData;
use crate::crypto::fits_cipher;
use crate::crypto::can_open;
use crate::crypto::device_key_of;
use crate::crypto::encrypts;
use crate::crypto::opens_to;
use crate::crypto::decrypt_optional;
use crate::crypto::encrypt_optional;
use crate::crypto::lemma_encrypt_decrypt_round_trip;
use crate::errors::CryptoError;
use crate::primitives::new_uuid_string;
use crate::primitives::now_local_formatted;

verus! {

/// One account, fully in plaintext in memory.
#[derive(Debug)]
pub struct Account {
    pub id: String,
    pub email: String,
    pub label: String,
    pub status: String,
    pub added_at: String,
    pub access_token: Option<String>,
    pub refresh_token: Option<String>,
    pub csrf_token: Option<String>,
    pub session_token: Option<String>,
    pub expires_at: Option<String>,
    pub provider: Option<String>,
    pub user_id: Option<String>,
    pub client_id: Option<String>,
    pub client_secret: Option<String>,
    pub region: Option<String>,
    pub client_id_hash: Option<String>,
    pub sso_session_id: Option<String>,
    pub id_token: Option<String>,
    pub profile_arn: Option<String>,
    /// Raw usage probe response, kept as its JSON text.
    pub usage_data: Option<String>,
}

/// One account in the encrypted on-disk (V2) shape: plaintext metadata plus
/// an encrypted pair for each present secret field, and a version tag of 2.
#[derive(Debug)]
pub struct SecureAccount {
    pub id: String,
    pub email: String,
    pub label: String,
    pub status: String,
    pub added_at: String,
    pub expires_at: Option<String>,
    pub provider: Option<String>,
    pub user_id: Option<String>,
    pub region: Option<String>,
    pub client_id_hash: Option<String>,
    pub profile_arn: Option<String>,
    pub usage_data: Option<String>,
    pub client_id: Option<String>,
    pub sso_session_id: Option<String>,
    pub access_token_enc: Option<EncryptedData>,
    pub refresh_token_enc: Option<EncryptedData>,
    pub csrf_token_enc: Option<EncryptedData>,
    pub session_token_enc: Option<EncryptedData>,
    pub client_secret_enc: Option<EncryptedData>,
    pub id_token_enc: Option<EncryptedData>,
    pub version: u32,
}

/// Clones an optional string, preserving equality.
pub fn clone_opt_string(o: &Option<String>) -> (r: Option<String>)
    ensures
        r == *o,
{
    match o {
        Some(s) => Some(s.clone()),
        None => None,
    }
}

/// Clones an account, preserving equality.
pub fn clone_account(a: &Account) -> (r: Account)
    ensures
        r == *a,
{
    Account {
        id: a.id.clone(),
        email: a.email.clone(),
        label: a.label.clone(),
        status: a.status.clone(),
        added_at: a.added_at.clone(),
        access_token: clone_opt_string(&a.access_token),
        refresh_token: clone_opt_string(&a.refresh_token),
        csrf_token: clone_opt_string(&a.csrf_token),
        session_token: clone_opt_string(&a.session_token),
        expires_at: clone_opt_string(&a.expires_at),
        provider: clone_opt_string(&a.provider),
        user_id: clone_opt_string(&a.user_id),
        client_id: clone_opt_string(&a.client_id),
        client_secret: clone_opt_string(&a.client_secret),
        region: clone_opt_string(&a.region),
        client_id_hash: clone_opt_string(&a.client_id_hash),
        sso_session_id: clone_opt_string(&a.sso_session_id),
        id_token: clone_opt_string(&a.id_token),
        profile_arn: clone_opt_string(&a.profile_arn),
        usage_data: clone_opt_string(&a.usage_data),
    }
}

/// The encrypted field stands for exactly this optional secret: present
/// fields encrypt a non-empty secret; an absent field means the secret was
/// absent or empty.
pub open spec fn opt_encrypts(
    o: Option<EncryptedData>,
    key: Seq<u8>,
    v: Option<Seq<char>>,
) -> bool {
    match o {
        Some(ef) => v matches Some(s) && s.len() > 0 && encrypts(ef@, key, s),
        None => (v matches Some(s) ==> s.len() == 0),
    }
}

/// The encrypted field opens to exactly this optional secret under `key`.
pub open spec fn opt_opens(o: Option<EncryptedData>, key: Seq<u8>, v: Option<Seq<char>>) -> bool {
    match o {
        Some(ef) => v matches Some(s) && opens_to(ef@, key, s),
        None => v is None,
    }
}

/// Every present encrypted field of the record can be opened under `key`.
pub open spec fn secure_can_open(sec: SecureAccount, key: Seq<u8>) -> bool {
    &&& (sec.access_token_enc matches Some(ef) ==> can_open(ef@, key))
    &&& (sec.refresh_token_enc matches Some(ef) ==> can_open(ef@, key))
    &&& (sec.csrf_token_enc matches Some(ef) ==> can_open(ef@, key))
    &&& (sec.session_token_enc matches Some(ef) ==> can_open(ef@, key))
    &&& (sec.client_secret_enc matches Some(ef) ==> can_open(ef@, key))
    &&& (sec.id_token_enc matches Some(ef) ==> can_open(ef@, key))
}

/// The plaintext metadata of `sec` and `a` agree.
pub open spec fn plain_fields_match(sec: SecureAccount, a: Account) -> bool {
    &&& sec.id@ == a.id@
    &&& sec.email@ == a.email@
    &&& sec.label@ == a.label@
    &&& sec.status@ == a.status@
    &&& sec.added_at@ == a.added_at@
    &&& sec.expires_at.deep_view() == a.expires_at.deep_view()
    &&& sec.provider.deep_view() == a.provider.deep_view()
    &&& sec.user_id.deep_view() == a.user_id.deep_view()
    &&& sec.region.deep_view() == a.region.deep_view()
    &&& sec.client_id_hash.deep_view() == a.client_id_hash.deep_view()
    &&& sec.profile_arn.deep_view() == a.profile_arn.deep_view()
    &&& sec.usage_data.deep_view() == a.usage_data.deep_view()
    &&& sec.client_id.deep_view() == a.client_id.deep_view()
    &&& sec.sso_session_id.deep_view() == a.sso_session_id.deep_view()
}

/// `sec` is an encryption of `a` under `key`: metadata copied, every secret
/// field encrypted (or dropped when absent or empty), version tag 2.
pub open spec fn secure_encrypts(sec: SecureAccount, key: Seq<u8>, a: Account) -> bool {
    &&& plain_fields_match(sec, a)
    &&& opt_encrypts(sec.access_token_enc, key, a.access_token.deep_view())
    &&& opt_encrypts(sec.refresh_token_enc, key, a.refresh_token.deep_view())
    &&& opt_encrypts(sec.csrf_token_enc, key, a.csrf_token.deep_view())
    &&& opt_encrypts(sec.session_token_enc, key, a.session_token.deep_view())
    &&& opt_encrypts(sec.client_secret_enc, key, a.client_secret.deep_view())
    &&& opt_encrypts(sec.id_token_enc, key, a.id_token.deep_view())
    &&& sec.version == 2
}

/// `a` is the decryption of `sec` under `key`: metadata copied, every present
/// secret field opened, absent fields left absent.
pub open spec fn secure_opens(sec: SecureAccount, key: Seq<u8>, a: Account) -> bool {
    &&& plain_fields_match(sec, a)
    &&& opt_opens(sec.access_token_enc, key, a.access_token.deep_view())
    &&& opt_opens(sec.refresh_token_enc, key, a.refresh_token.deep_view())
    &&& opt_opens(sec.csrf_token_enc, key, a.csrf_token.deep_view())
    &&& opt_opens(sec.session_token_enc, key, a.session_token.deep_view())
    &&& opt_opens(sec.client_secret_enc, key, a.client_secret.deep_view())
    &&& opt_opens(sec.id_token_enc, key, a.id_token.deep_view())
}

/// Every present secret field is within the cipher's length limit, so its
/// encryption always succeeds.
pub open spec fn account_fits_cipher(a: Account) -> bool {
    &&& (a.access_token matches Some(s) ==> fits_cipher(encode_utf8(s@).len() as int))
    &&& (a.refresh_token matches Some(s) ==> fits_cipher(encode_utf8(s@).len() as int))
    &&& (a.csrf_token matches Some(s) ==> fits_cipher(encode_utf8(s@).len() as int))
    &&& (a.session_token matches Some(s) ==> fits_cipher(encode_utf8(s@).len() as int))
    &&& (a.client_secret matches Some(s) ==> fits_cipher(encode_utf8(s@).len() as int))
    &&& (a.id_token matches Some(s) ==> fits_cipher(encode_utf8(s@).len() as int))
}

/// No secret field holds a present-but-empty value (encryption normalizes
/// those to absent).
pub open spec fn normalized(a: Account) -> bool {
    &&& (a.access_token.deep_view() matches Some(s) ==> s.len() > 0)
    &&& (a.refresh_token.deep_view() matches Some(s) ==> s.len() > 0)
    &&& (a.csrf_token.deep_view() matches Some(s) ==> s.len() > 0)
    &&& (a.session_token.deep_view() matches Some(s) ==> s.len() > 0)
    &&& (a.client_secret.deep_view() matches Some(s) ==> s.len() > 0)
    &&& (a.id_token.deep_view() matches Some(s) ==> s.len() > 0)
}

/// The two accounts agree field by field (by character content).
pub open spec fn account_view_eq(a: Account, b: Account) -> bool {
    &&& a.id@ == b.id@
    &&& a.email@ == b.email@
    &&& a.label@ == b.label@
    &&& a.status@ == b.status@
    &&& a.added_at@ == b.added_at@
    &&& a.access_token.deep_view() == b.access_token.deep_view()
    &&& a.refresh_token.deep_view() == b.refresh_token.deep_view()
    &&& a.csrf_token.deep_view() == b.csrf_token.deep_view()
    &&& a.session_token.deep_view() == b.session_token.deep_view()
    &&& a.expires_at.deep_view() == b.expires_at.deep_view()
    &&& a.provider.deep_view() == b.provider.deep_view()
    &&& a.user_id.deep_view() == b.user_id.deep_view()
    &&& a.client_id.deep_view() == b.client_id.deep_view()
    &&& a.client_secret.deep_view() == b.client_secret.deep_view()
    &&& a.region.deep_view() == b.region.deep_view()
    &&& a.client_id_hash.deep_view() == b.client_id_hash.deep_view()
    &&& a.sso_session_id.deep_view() == b.sso_session_id.deep_view()
    &&& a.id_token.deep_view() == b.id_token.deep_view()
    &&& a.profile_arn.deep_view() == b.profile_arn.deep_view()
    &&& a.usage_data.deep_view() == b.usage_data.deep_view()
}

impl Account {
    /// A fresh record: new random id, the given email and label, status
    /// "正常", creation time as added_at, everything else absent.
    pub fn new(email: String, label: String) -> (r: Account)
        ensures
            r.id@.len() == 36,
            r.email == email,
            r.label == label,
            r.status@ == "正常"@,
            r.access_token is None,
            r.refresh_token is None,
            r.csrf_token is None,
            r.session_token is None,
            r.expires_at is None,
            r.provider is None,
            r.user_id is None,
            r.client_id is None,
            r.client_secret is None,
            r.region is None,
            r.client_id_hash is None,
            r.sso_session_id is None,
            r.id_token is None,
            r.profile_arn is None,
            r.usage_data is None,
    {
        Account {
            id: new_uuid_string(),
            email,
            label,
            status: "正常".to_owned(),
            added_at: now_local_formatted(),
            access_token: None,
            refresh_token: None,
            csrf_token: None,
            session_token: None,
            expires_at: None,
            provider: None,
            user_id: None,
            client_id: None,
            client_secret: None,
            region: None,
            client_id_hash: None,
            sso_session_id: None,
            id_token: None,
            profile_arn: None,
            usage_data: None,
        }
    }

    /// Converts to the encrypted V2 shape, re-encrypting every present
    /// secret field under the device key with a fresh nonce.
    pub fn to_secure(&self, machine_id: &str) -> (r: Result<SecureAccount, CryptoError>)
        ensures
            account_fits_cipher(*self) ==> r is Ok,
            r matches Ok(sec) ==> secure_encrypts(sec, device_key_of(machine_id@), *self),
            r matches Err(e) ==> e is Cipher,
    {
        let access_token_enc = match encrypt_optional(&self.access_token, machine_id) {
            Ok(o) => o,
            Err(e) => { return Err(e); },
        };
        let refresh_token_enc = match encrypt_optional(&self.refresh_token, machine_id) {
            Ok(o) => o,
            Err(e) => { return Err(e); },
        };
        let csrf_token_enc = match encrypt_optional(&self.csrf_token, machine_id) {
            Ok(o) => o,
            Err(e) => { return Err(e); },
        };
        let session_token_enc = match encrypt_optional(&self.session_token, machine_id) {
            Ok(o) => o,
            Err(e) => { return Err(e); },
        };
        let client_secret_enc = match encrypt_optional(&self.client_secret, machine_id) {
            Ok(o) => o,
            Err(e) => { return Err(e); },
        };
        let id_token_enc = match encrypt_optional(&self.id_token, machine_id) {
            Ok(o) => o,
            Err(e) => { return Err(e); },
        };
        Ok(SecureAccount {
            id: self.id.clone(),
            email: self.email.clone(),
            label: self.label.clone(),
            status: self.status.clone(),
            added_at: self.added_at.clone(),
            expires_at: clone_opt_string(&self.expires_at),
            provider: clone_opt_string(&self.provider),
            user_id: clone_opt_string(&self.user_id),
            region: clone_opt_string(&self.region),
            client_id_hash: clone_opt_string(&self.client_id_hash),
            profile_arn: clone_opt_string(&self.profile_arn),
            usage_data: clone_opt_string(&self.usage_data),
            client_id: clone_opt_string(&self.client_id),
            sso_session_id: clone_opt_string(&self.sso_session_id),
            access_token_enc,
            refresh_token_enc,
            csrf_token_enc,
            session_token_enc,
            client_secret_enc,
            id_token_enc,
            version: 2,
        })
    }

    /// Restores a record from the encrypted V2 shape, decrypting every
    /// present secret field under the device key. Fails when any present
    /// field does not open under this device's key.
    pub fn from_secure(secure: &SecureAccount, machine_id: &str) -> (r: Result<
        Account,
        CryptoError,
    >)
        ensures
            r is Ok <==> secure_can_open(*secure, device_key_of(machine_id@)),
            r matches Ok(a) ==> secure_opens(*secure, device_key_of(machine_id@), a),
            r matches Err(e) ==> e is Authentication || e is Encoding,
    {
        let access_token = match decrypt_optional(&secure.access_token_enc, machine_id) {
            Ok(o) => o,
            Err(e) => { return Err(e); },
        };
        let refresh_token = match decrypt_optional(&secure.refresh_token_enc, machine_id) {
            Ok(o) => o,
            Err(e) => { return Err(e); },
        };
        let csrf_token = match decrypt_optional(&secure.csrf_token_enc, machine_id) {
            Ok(o) => o,
            Err(e) => { return Err(e); },
        };
        let session_token = match decrypt_optional(&secure.session_token_enc, machine_id) {
            Ok(o) => o,
            Err(e) => { return Err(e); },
        };
        let client_secret = match decrypt_optional(&secure.client_secret_enc, machine_id) {
            Ok(o) => o,
            Err(e) => { return Err(e); },
        };
        let id_token = match decrypt_optional(&secure.id_token_enc, machine_id) {
            Ok(o) => o,
            Err(e) => { return Err(e); },
        };
        Ok(Account {
            id: secure.id.clone(),
            email: secure.email.clone(),
            label: secure.label.clone(),
            status: secure.status.clone(),
            added_at: secure.added_at.clone(),
            access_token,
            refresh_token,
            csrf_token,
            session_token,
            expires_at: clone_opt_string(&secure.expires_at),
            provider: clone_opt_string(&secure.provider),
            user_id: clone_opt_string(&secure.user_id),
            client_id: clone_opt_string(&secure.client_id),
            client_secret,
            region: clone_opt_string(&secure.region),
            client_id_hash: clone_opt_string(&secure.client_id_hash),
            sso_session_id: clone_opt_string(&secure.sso_session_id),
            id_token,
            profile_arn: clone_opt_string(&secure.profile_arn),
            usage_data: clone_opt_string(&secure.usage_data),
        })
    }
}

/// A record whose secrets were encrypted can always be opened again under the
/// same key.
pub proof fn lemma_secure_encrypts_can_open(sec: SecureAccount, key: Seq<u8>, a: Account)
    requires
        secure_encrypts(sec, key, a),
    ensures
        secure_can_open(sec, key),
{
    match sec.access_token_enc {
        Some(ef) => lemma_encrypt_decrypt_round_trip(ef@, key, a.access_token.deep_view()->Some_0),
        None => (),
    }
    match sec.refresh_token_enc {
        Some(ef) => lemma_encrypt_decrypt_round_trip(ef@, key, a.refresh_token.deep_view()->Some_0),
        None => (),
    }
    match sec.csrf_token_enc {
        Some(ef) => lemma_encrypt_decrypt_round_trip(ef@, key, a.csrf_token.deep_view()->Some_0),
        None => (),
    }
    match sec.session_token_enc {
        Some(ef) => lemma_encrypt_decrypt_round_trip(ef@, key, a.session_token.deep_view()->Some_0),
        None => (),
    }
    match sec.client_secret_enc {
        Some(ef) => lemma_encrypt_decrypt_round_trip(ef@, key, a.client_secret.deep_view()->Some_0),
        None => (),
    }
    match sec.id_token_enc {
        Some(ef) => lemma_encrypt_decrypt_round_trip(ef@, key, a.id_token.deep_view()->Some_0),
        None => (),
    }
}

/// Round trip of one record: encrypting `a1` and decrypting the result under
/// the same key reproduces every field of `a1`, provided no secret field was
/// present but empty (those are normalized to absent).
pub proof fn lemma_secure_round_trip(sec: SecureAccount, key: Seq<u8>, a1: Account, a2: Account)
    requires
        secure_encrypts(sec, key, a1),
        secure_opens(sec, key, a2),
        normalized(a1),
    ensures
        account_view_eq(a1, a2),
{
    match sec.access_token_enc {
        Some(ef) => lemma_encrypt_decrypt_round_trip(ef@, key, a1.access_token.deep_view()->Some_0),
        None => (),
    }
    match sec.refresh_token_enc {
        Some(ef) => lemma_encrypt_decrypt_round_trip(ef@, key, a1.refresh_token.deep_view()->Some_0),
        None => (),
    }
    match sec.csrf_token_enc {
        Some(ef) => lemma_encrypt_decrypt_round_trip(ef@, key, a1.csrf_token.deep_view()->Some_0),
        None => (),
    }
    match sec.session_token_enc {
        Some(ef) => lemma_encrypt_decrypt_round_trip(ef@, key, a1.session_token.deep_view()->Some_0),
        None => (),
    }
    match sec.client_secret_enc {
        Some(ef) => lemma_encrypt_decrypt_round_trip(ef@, key, a1.client_secret.deep_view()->Some_0),
        None => (),
    }
    match sec.id_token_enc {
        Some(ef) => lemma_encrypt_decrypt_round_trip(ef@, key, a1.id_token.deep_view()->Some_0),
        None => (),
    }
}

/// Round trip of a whole saved vault: every record of a V2 file produced by
/// encrypting `accounts` opens again under the same key, and opens to a
/// record that agrees with the original on every field.
pub proof fn lemma_saved_vault_reloads(secs: Seq<SecureAccount>, accounts: Seq<Account>, key: Seq<u8>)
    requires
        secs.len() == accounts.len(),
        forall|i: int| 0 <= i < secs.len() ==> secure_encrypts(#[trigger] secs[i], key, accounts[i]),
        forall|i: int| 0 <= i < accounts.len() ==> normalized(#[trigger] accounts[i]),
    ensures
        forall|i: int| 0 <= i < secs.len() ==> secure_can_open(#[trigger] secs[i], key),
        forall|i: int, a2: Account|
            0 <= i < secs.len() && #[trigger] secure_opens(secs[i], key, a2) ==> account_view_eq(
                accounts[i],
                a2,
            ),
{
    assert forall|i: int| 0 <= i < secs.len() implies secure_can_open(#[trigger] secs[i], key) by {
        lemma_secure_encrypts_can_open(secs[i], key, accounts[i]);
    }
    assert forall|i: int, a2: Account|
        0 <= i < secs.len() && #[trigger] secure_opens(secs[i], key, a2) implies account_view_eq(
        accounts[i],
        a2,
    ) by {
        lemma_secure_round_trip(secs[i], key, accounts[i], a2);
    }
}


/// All record ids in the sequence are distinct.
pub open spec fn unique_ids(s: Seq<Account>) -> bool {
    forall|i: int, j: int|
        0 <= i < j < s.len() ==> (#[trigger] s[i].id@) != (#[trigger] s[j].id@)
}

/// Removing one record keeps ids unique.
pub proof fn lemma_remove_preserves_unique_ids(s: Seq<Account>, i: int)
    requires
        unique_ids(s),
        0 <= i < s.len(),
    ensures
        unique_ids(s.remove(i)),
{
    let t = s.remove(i);
    assert forall|x: int, y: int| 0 <= x < y < t.len() implies (#[trigger] t[x].id@)
        != (#[trigger] t[y].id@) by {
        let x0: int = if x < i {
            x
        } else {
            x + 1
        };
        let y0: int = if y < i {
            y
        } else {
            y + 1
        };
        assert(t[x] == s[x0]);
        assert(t[y] == s[y0]);
    }
}

/// Every filtered record is one of the original records.
proof fn lemma_filter_membership(s: Seq<Account>, pred: spec_fn(Account) -> bool, k: int)
    requires
        0 <= k < s.filter(pred).len(),
    ensures
        exists|i: int| 0 <= i < s.len() && #[trigger] s[i] == s.filter(pred)[k],
    decreases s.len(),
{
    reveal(Seq::filter);
    s.lemma_filter_len(pred);
    if s.len() > 0 {
        let d = s.drop_last();
        if pred(s.last()) && k == s.filter(pred).len() - 1 {
            assert(s[s.len() - 1] == s.filter(pred)[k]);
        } else {
            lemma_filter_membership(d, pred, k);
            let i = choose|i: int| 0 <= i < d.len() && #[trigger] d[i] == d.filter(pred)[k];
            assert(s[i] == s.filter(pred)[k]);
        }
    }
}

/// Filtering records keeps ids unique.
pub proof fn lemma_filter_preserves_unique_ids(s: Seq<Account>, pred: spec_fn(Account) -> bool)
    requires
        unique_ids(s),
    ensures
        unique_ids(s.filter(pred)),
    decreases s.len(),
{
    reveal(Seq::filter);
    if s.len() > 0 {
        let d = s.drop_last();
        assert(unique_ids(d)) by {
            assert forall|i: int, j: int| 0 <= i < j < d.len() implies (#[trigger] d[i].id@)
                != (#[trigger] d[j].id@) by {
                assert(d[i] == s[i]);
                assert(d[j] == s[j]);
            }
        }
        lemma_filter_preserves_unique_ids(d, pred);
        if pred(s.last()) {
            let f = s.filter(pred);
            d.lemma_filter_len(pred);
            assert forall|x: int, y: int| 0 <= x < y < f.len() implies (#[trigger] f[x].id@)
                != (#[trigger] f[y].id@) by {
                if y < f.len() - 1 {
                    assert(f[x] == d.filter(pred)[x]);
                    assert(f[y] == d.filter(pred)[y]);
                } else {
                    assert(f[x] == d.filter(pred)[x]);
                    assert(f[y] == s.last());
                    lemma_filter_membership(d, pred, x);
                    let i = choose|i: int|
                        0 <= i < d.len() && #[trigger] d[i] == d.filter(pred)[x];
                    assert(d[i] == s[i]);
                    assert(s[i].id@ != s[s.len() - 1].id@);
                }
            }
        }
    }
}

/// Importing keeps ids unique: a record whose id is already present is
/// dropped, so no id is ever duplicated.
pub proof fn lemma_import_preserves_unique_ids(s: Seq<Account>, imp: Seq<Account>)
    requires
        unique_ids(s),
    ensures
        unique_ids(import_seq(s, imp)),
    decreases imp.len(),
{
    if imp.len() > 0 {
        let a = imp[0];
        if has_account_id(s, a.id@) {
            lemma_import_preserves_unique_ids(s, imp.drop_first());
        } else {
            let s1 = s.push(a);
            assert forall|i: int, j: int| 0 <= i < j < s1.len() implies (#[trigger] s1[i].id@)
                != (#[trigger] s1[j].id@) by {
                if j < s1.len() - 1 {
                    assert(s1[i] == s[i]);
                    assert(s1[j] == s[j]);
                } else {
                    assert(s1[i] == s[i]);
                    assert(s1[j] == a);
                    if s[i].id@ == a.id@ {
                        assert(has_account_id(s, a.id@));
                    }
                }
            }
            lemma_import_preserves_unique_ids(s1, imp.drop_first());
        }
    }
}

/// Some record in `s` carries this id.
pub open spec fn has_account_id(s: Seq<Account>, id: Seq<char>) -> bool {
    exists|i: int| 0 <= i < s.len() && #[trigger] s[i].id@ == id
}

/// `post` is `pre` with exactly its first record of this id removed.
pub open spec fn removes_first_id(pre: Seq<Account>, post: Seq<Account>, id: Seq<char>) -> bool {
    exists|i: int|
        {
            &&& 0 <= i < pre.len()
            &&& #[trigger] pre[i].id@ == id
            &&& (forall|j: int| 0 <= j < i ==> pre[j].id@ != id)
            &&& post == pre.remove(i)
        }
}

/// This id occurs among `ids`.
pub open spec fn id_among(ids: Seq<String>, id: Seq<char>) -> bool {
    exists|k: int| 0 <= k < ids.len() && #[trigger] ids[k]@ == id
}

/// Importing records left to right: a record whose id is already present is
/// dropped, the others are appended.
pub open spec fn import_seq(s: Seq<Account>, imp: Seq<Account>) -> Seq<Account>
    decreases imp.len(),
{
    if imp.len() == 0 {
        s
    } else {
        let s1 = if has_account_id(s, imp[0].id@) {
            s
        } else {
            s.push(imp[0])
        };
        import_seq(s1, imp.drop_first())
    }
}

proof fn lemma_import_seq_snoc(s: Seq<Account>, pre: Seq<Account>, x: Account)
    ensures
        import_seq(s, pre.push(x)) == (if has_account_id(import_seq(s, pre), x.id@) {
            import_seq(s, pre)
        } else {
            import_seq(s, pre).push(x)
        }),
    decreases pre.len(),
{
    if pre.len() == 0 {
        let s1 = if has_account_id(s, x.id@) {
            s
        } else {
            s.push(x)
        };
        assert(pre.push(x)[0] == x);
        assert(pre.push(x).drop_first() =~= Seq::<Account>::empty());
        assert(import_seq(s, pre.push(x)) == import_seq(s1, pre.push(x).drop_first()));
        assert(import_seq(s1, pre.push(x).drop_first()) == s1);
        assert(import_seq(s, pre) == s);
    } else {
        let s1 = if has_account_id(s, pre[0].id@) {
            s
        } else {
            s.push(pre[0])
        };
        assert(pre.push(x)[0] == pre[0]);
        assert(pre.push(x).drop_first() =~= pre.drop_first().push(x));
        assert(import_seq(s, pre.push(x)) == import_seq(s1, pre.drop_first().push(x)));
        lemma_import_seq_snoc(s1, pre.drop_first(), x);
        assert(import_seq(s, pre) == import_seq(s1, pre.drop_first()));
    }
}

/// The in-memory vault: the ordered records and a count of how many times a
/// persistence of the whole vault has been triggered.
#[derive(Debug)]
pub struct AccountStore {
    pub accounts: Vec<Account>,
    pub save_count: u64,
}

impl AccountStore {
    /// An empty store with no persistence triggered yet.
    pub fn new() -> (r: AccountStore)
        ensures
            r.accounts@.len() == 0,
            r.save_count == 0,
    {
        AccountStore { accounts: Vec::new(), save_count: 0 }
    }

    /// A store over already-loaded records.
    pub fn from_accounts(accounts: Vec<Account>) -> (r: AccountStore)
        ensures
            r.accounts@ == accounts@,
            r.save_count == 0,
    {
        AccountStore { accounts, save_count: 0 }
    }

    /// A copy of all records, in order.
    pub fn get_all(&self) -> (r: Vec<Account>)
        ensures
            r@ == self.accounts@,
    {
        let mut out: Vec<Account> = Vec::new();
        let mut k: usize = 0;
        while k < self.accounts.len()
            invariant
                0 <= k <= self.accounts@.len(),
                out@ == self.accounts@.take(k as int),
            decreases self.accounts@.len() - k,
        {
            out.push(clone_account(&self.accounts[k]));
            proof {
                assert(self.accounts@.take(k + 1 as int) =~= self.accounts@.take(k as int).push(
                    self.accounts@[k as int],
                ));
            }
            k = k + 1;
        }
        proof {
            assert(self.accounts@.take(self.accounts@.len() as int) =~= self.accounts@);
        }
        out
    }

    /// Removes the first record with this id, if any, and triggers a save
    /// exactly when something was removed.
    pub fn delete(&mut self, id: &str) -> (r: bool)
        requires
            old(self).save_count < u64::MAX,
        ensures
            r == has_account_id(old(self).accounts@, id@),
            !r ==> final(self).accounts@ == old(self).accounts@ && final(self).save_count
                == old(self).save_count,
            r ==> removes_first_id(old(self).accounts@, final(self).accounts@, id@)
                && final(self).save_count == old(self).save_count + 1,
    {
        let mut k: usize = 0;
        while k < self.accounts.len()
            invariant
                0 <= k <= self.accounts@.len(),
                forall|j: int| 0 <= j < k ==> self.accounts@[j].id@ != id@,
                *self == *old(self),
                old(self).save_count < u64::MAX,
            decreases self.accounts@.len() - k,
        {
            if crate::text::str_eq(self.accounts[k].id.as_str(), id) {
                let ghost pre = self.accounts@;
                self.accounts.remove(k);
                self.save_count = self.save_count + 1;
                proof {
                    assert(pre[k as int].id@ == id@);
                    assert(removes_first_id(pre, self.accounts@, id@));
                }
                return true;
            }
            k = k + 1;
        }
        false
    }

    /// Removes every record whose id is among `ids`; triggers one save
    /// exactly when anything was removed. Returns how many were removed.
    pub fn delete_many(&mut self, ids: &[String]) -> (r: usize)
        requires
            old(self).save_count < u64::MAX,
        ensures
            final(self).accounts@ == old(self).accounts@.filter(
                |a: Account| !id_among(ids@, a.id@),
            ),
            r == old(self).accounts@.len() - final(self).accounts@.len(),
            r > 0 ==> final(self).save_count == old(self).save_count + 1,
            r == 0 ==> final(self).save_count == old(self).save_count,
    {
        let ghost pred = |a: Account| !id_among(ids@, a.id@);
        let mut kept: Vec<Account> = Vec::new();
        let mut k: usize = 0;
        while k < self.accounts.len()
            invariant
                0 <= k <= self.accounts@.len(),
                kept@ == self.accounts@.take(k as int).filter(pred),
                pred == (|a: Account| !id_among(ids@, a.id@)),
                *self == *old(self),
            decreases self.accounts@.len() - k,
        {
            let keep = !id_in_slice(ids, &self.accounts[k].id);
            proof {
                let prefix = self.accounts@.take(k + 1 as int);
                assert(prefix.drop_last() =~= self.accounts@.take(k as int));
                assert(prefix.last() == self.accounts@[k as int]);
                assert(pred(self.accounts@[k as int]) == keep);
                reveal_with_fuel(Seq::filter, 2);
                if pred(prefix.last()) {
                    assert(prefix.filter(pred) == prefix.drop_last().filter(pred).push(
                        prefix.last(),
                    ));
                } else {
                    assert(prefix.filter(pred) == prefix.drop_last().filter(pred));
                }
            }
            if keep {
                kept.push(clone_account(&self.accounts[k]));
            }
            k = k + 1;
        }
        proof {
            assert(self.accounts@.take(self.accounts@.len() as int) =~= self.accounts@);
            self.accounts@.lemma_filter_len(pred);
        }
        let removed = self.accounts.len() - kept.len();
        self.accounts = kept;
        if removed > 0 {
            self.save_count = self.save_count + 1;
        }
        removed
    }

    /// Appends every imported record whose id is not already present
    /// (deduplicating on id); always triggers one save. Returns the number of
    /// records that were handed in.
    pub fn import_accounts(&mut self, imported: Vec<Account>) -> (r: usize)
        requires
            old(self).save_count < u64::MAX,
        ensures
            final(self).accounts@ == import_seq(old(self).accounts@, imported@),
            r == imported@.len(),
            final(self).save_count == old(self).save_count + 1,
    {
        let ghost base = self.accounts@;
        let mut k: usize = 0;
        while k < imported.len()
            invariant
                0 <= k <= imported@.len(),
                self.accounts@ == import_seq(base, imported@.take(k as int)),
                self.save_count == old(self).save_count,
                base == old(self).accounts@,
            decreases imported@.len() - k,
        {
            let a = clone_account(&imported[k]);
            let present = self.has_id(&a.id);
            proof {
                assert(imported@.take(k + 1 as int) =~= imported@.take(k as int).push(
                    imported@[k as int],
                ));
                lemma_import_seq_snoc(base, imported@.take(k as int), imported@[k as int]);
            }
            if !present {
                self.accounts.push(a);
            }
            k = k + 1;
        }
        proof {
            assert(imported@.take(imported@.len() as int) =~= imported@);
        }
        self.save_count = self.save_count + 1;
        imported.len()
    }

    /// Whether some record carries this id.
    pub fn has_id(&self, id: &String) -> (r: bool)
        ensures
            r == has_account_id(self.accounts@, id@),
    {
        let mut k: usize = 0;
        while k < self.accounts.len()
            invariant
                0 <= k <= self.accounts@.len(),
                forall|j: int| 0 <= j < k ==> self.accounts@[j].id@ != id@,
            decreases self.accounts@.len() - k,
        {
            if crate::text::str_eq(self.accounts[k].id.as_str(), id.as_str()) {
                return true;
            }
            k = k + 1;
        }
        false
    }
}

/// Whether this id occurs in the slice.
fn id_in_slice(ids: &[String], id: &String) -> (r: bool)
    ensures
        r == id_among(ids@, id@),
{
    let mut k: usize = 0;
    while k < ids.len()
        invariant
            0 <= k <= ids@.len(),
            forall|j: int| 0 <= j < k ==> ids@[j]@ != id@,
        decreases ids@.len() - k,
    {
        if crate::text::str_eq(ids[k].as_str(), id.as_str()) {
            return true;
        }
        k = k + 1;
    }
    false
}

/// The kept output rows are an order-preserving selection of the input, each
/// an encryption of its source record.
pub open spec fn encrypt_selection(
    idx: Seq<int>,
    accounts: Seq<Account>,
    out: Seq<SecureAccount>,
    key: Seq<u8>,
) -> bool {
    &&& idx.len() == out.len()
    &&& (forall|j: int| 0 <= j < idx.len() ==> 0 <= #[trigger] idx[j] < accounts.len())
    &&& (forall|j1: int, j2: int| 0 <= j1 < j2 < idx.len() ==> idx[j1] < idx[j2])
    &&& (forall|j: int|
        0 <= j < out.len() ==> secure_encrypts(#[trigger] out[j], key, accounts[idx[j]]))
}

/// `i` is one of the selected input positions.
pub open spec fn selected(idx: Seq<int>, i: int) -> bool {
    exists|j: int| 0 <= j < idx.len() && #[trigger] idx[j] == i
}

/// The kept output rows are an order-preserving selection of exactly the
/// input records that open under `key`, each row their decryption.
pub open spec fn decrypt_selection(
    idx: Seq<int>,
    secs: Seq<SecureAccount>,
    out: Seq<Account>,
    key: Seq<u8>,
) -> bool {
    &&& idx.len() == out.len()
    &&& (forall|j: int| 0 <= j < idx.len() ==> 0 <= #[trigger] idx[j] < secs.len())
    &&& (forall|j1: int, j2: int| 0 <= j1 < j2 < idx.len() ==> idx[j1] < idx[j2])
    &&& (forall|j: int| 0 <= j < out.len() ==> secure_opens(secs[idx[j]], key, #[trigger] out[j]))
    &&& (forall|i: int|
        0 <= i < secs.len() ==> (secure_can_open(#[trigger] secs[i], key) <==> selected(idx, i)))
}

/// Converts every record to its encrypted V2 shape for saving. A record whose
/// encryption fails is dropped from the output (never fatal to the save); the
/// kept records appear in order. When every record's secrets are within the
/// cipher's length limit, nothing is dropped and row `i` of the output is an
/// encryption of record `i`.
pub fn encrypt_records(accounts: &Vec<Account>, machine_id: &str) -> (r: Vec<SecureAccount>)
    ensures
        exists|idx: Seq<int>|
            #[trigger] encrypt_selection(idx, accounts@, r@, device_key_of(machine_id@)),
        (forall|i: int|
            0 <= i < accounts@.len() ==> account_fits_cipher(#[trigger] accounts@[i]))
            ==> r@.len() == accounts@.len() && (forall|i: int|
            0 <= i < accounts@.len() ==> secure_encrypts(
                #[trigger] r@[i],
                device_key_of(machine_id@),
                accounts@[i],
            )),
{
    let ghost key = device_key_of(machine_id@);
    let mut out: Vec<SecureAccount> = Vec::new();
    let ghost mut idx: Seq<int> = Seq::empty();
    let mut k: usize = 0;
    let mut all_kept = true;
    while k < accounts.len()
        invariant
            0 <= k <= accounts@.len(),
            key == device_key_of(machine_id@),
            idx.len() == out@.len(),
            forall|j: int| 0 <= j < idx.len() ==> 0 <= #[trigger] idx[j] < k,
            forall|j1: int, j2: int| 0 <= j1 < j2 < idx.len() ==> idx[j1] < idx[j2],
            forall|j: int|
                0 <= j < out@.len() ==> secure_encrypts(#[trigger] out@[j], key, accounts@[idx[j]]),
            !all_kept ==> exists|i: int|
                0 <= i < k && !account_fits_cipher(#[trigger] accounts@[i]),
            all_kept ==> out@.len() == k && (forall|i: int|
                0 <= i < k ==> secure_encrypts(#[trigger] out@[i], key, accounts@[i])),
        decreases accounts@.len() - k,
    {
        match accounts[k].to_secure(machine_id) {
            Ok(sec) => {
                out.push(sec);
                proof {
                    idx = idx.push(k as int);
                }
            },
            Err(_) => {
                all_kept = false;
            },
        }
        k = k + 1;
    }
    proof {
        assert(encrypt_selection(idx, accounts@, out@, key));
    }
    out
}

/// Decrypts every loaded V2 record; a record that does not open under this
/// device's key is skipped (never fatal to the load); the kept records appear
/// in order. When every record opens, nothing is skipped and record `i` of
/// the result is the decryption of record `i` of the input.
pub fn decrypt_records(secure: &Vec<SecureAccount>, machine_id: &str) -> (r: Vec<Account>)
    ensures
        exists|idx: Seq<int>|
            #[trigger] decrypt_selection(idx, secure@, r@, device_key_of(machine_id@)),
        (forall|i: int|
            0 <= i < secure@.len() ==> secure_can_open(
                #[trigger] secure@[i],
                device_key_of(machine_id@),
            )) ==> r@.len() == secure@.len() && (forall|i: int|
            0 <= i < secure@.len() ==> secure_opens(
                secure@[i],
                device_key_of(machine_id@),
                #[trigger] r@[i],
            )),
{
    let ghost key = device_key_of(machine_id@);
    let mut out: Vec<Account> = Vec::new();
    let ghost mut idx: Seq<int> = Seq::empty();
    let mut k: usize = 0;
    let mut all_open = true;
    while k < secure.len()
        invariant
            0 <= k <= secure@.len(),
            key == device_key_of(machine_id@),
            idx.len() == out@.len(),
            forall|j: int| 0 <= j < idx.len() ==> 0 <= #[trigger] idx[j] < k,
            forall|j1: int, j2: int| 0 <= j1 < j2 < idx.len() ==> idx[j1] < idx[j2],
            forall|j: int|
                0 <= j < out@.len() ==> secure_opens(secure@[idx[j]], key, #[trigger] out@[j]),
            forall|i: int|
                0 <= i < k ==> (secure_can_open(#[trigger] secure@[i], key) <==> selected(idx, i)),
            all_open <==> (forall|i: int|
                0 <= i < k ==> secure_can_open(#[trigger] secure@[i], key)),
            all_open ==> out@.len() == k && (forall|i: int|
                0 <= i < k ==> secure_opens(secure@[i], key, #[trigger] out@[i])),
        decreases secure@.len() - k,
    {
        let ghost pre_idx = idx;
        match Account::from_secure(&secure[k], machine_id) {
            Ok(a) => {
                out.push(a);
                proof {
                    idx = idx.push(k as int);
                }
            },
            Err(_) => {
                all_open = false;
            },
        }
        proof {
            assert forall|i: int|
                0 <= i < k + 1 implies (secure_can_open(#[trigger] secure@[i], key) <==> selected(
                idx,
                i,
            )) by {
                if i < k {
                    assert(selected(pre_idx, i) ==> selected(idx, i)) by {
                        if selected(pre_idx, i) {
                            let j = choose|j: int| 0 <= j < pre_idx.len() && pre_idx[j] == i;
                            assert(idx[j] == i);
                        }
                    }
                    assert(selected(idx, i) ==> selected(pre_idx, i)) by {
                        if selected(idx, i) {
                            let j = choose|j: int| 0 <= j < idx.len() && idx[j] == i;
                            assert(j < pre_idx.len());
                            assert(pre_idx[j] == i);
                        }
                    }
                } else {
                    if idx.len() > pre_idx.len() {
                        assert(idx[idx.len() - 1] == k as int);
                    } else {
                        if selected(idx, i) {
                            let j = choose|j: int| 0 <= j < idx.len() && idx[j] == i;
                            assert(idx[j] < k);
                        }
                    }
                }
            }
        }
        k = k + 1;
    }
    proof {
        assert(decrypt_selection(idx, secure@, out@, key));
    }
    out
}

} // verus!
