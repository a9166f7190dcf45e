use kiro_vault::account::{
    clone_account, decrypt_records, encrypt_records, Account, AccountStore,
};

fn sample_account(email: &str, secret: &str) -> Account {
    let mut a = Account::new(email.to_string(), "label".to_string());
    a.access_token = Some(format!("at-{}", secret));
    a.refresh_token = Some(format!("rt-{}", secret));
    a.client_secret = Some(format!("cs-{}", secret));
    a.provider = Some("Google".to_string());
    a.region = Some("us-east-1".to_string());
    a.usage_data = Some("{\"limit\":1}".to_string());
    a
}

#[test]
fn saved_vault_reloads_identically() {
    let machine_id = "vault-device";
    let accounts = vec![
        sample_account("one@example.com", "alpha"),
        sample_account("two@example.com", "beta"),
    ];
    let secure = encrypt_records(&accounts, machine_id);
    assert_eq!(secure.len(), 2);
    assert!(secure.iter().all(|s| s.version == 2));
    assert!(secure.iter().all(|s| s.access_token_enc.is_some()));

    let reloaded = decrypt_records(&secure, machine_id);
    assert_eq!(reloaded.len(), 2);
    for (orig, back) in accounts.iter().zip(reloaded.iter()) {
        assert_eq!(orig.id, back.id);
        assert_eq!(orig.email, back.email);
        assert_eq!(orig.label, back.label);
        assert_eq!(orig.status, back.status);
        assert_eq!(orig.added_at, back.added_at);
        assert_eq!(orig.access_token, back.access_token);
        assert_eq!(orig.refresh_token, back.refresh_token);
        assert_eq!(orig.csrf_token, back.csrf_token);
        assert_eq!(orig.session_token, back.session_token);
        assert_eq!(orig.client_secret, back.client_secret);
        assert_eq!(orig.id_token, back.id_token);
        assert_eq!(orig.provider, back.provider);
        assert_eq!(orig.region, back.region);
        assert_eq!(orig.usage_data, back.usage_data);
    }
}

#[test]
fn legacy_plaintext_records_upgrade_on_save() {
    // A V1 file is loaded verbatim as plaintext records; the next save
    // produces V2 records, and reloading those matches the original.
    let machine_id = "legacy-device";
    let legacy = vec![sample_account("v1@example.com", "legacy")];
    let upgraded = encrypt_records(&legacy, machine_id);
    assert_eq!(upgraded.len(), 1);
    assert_eq!(upgraded[0].version, 2);
    assert!(upgraded[0].refresh_token_enc.is_some());
    // secrets do not appear in the clear in the V2 record
    assert_ne!(
        upgraded[0].access_token_enc.as_ref().unwrap().ciphertext,
        legacy[0].access_token.clone().unwrap()
    );
    let reloaded = decrypt_records(&upgraded, machine_id);
    assert_eq!(reloaded.len(), 1);
    assert_eq!(reloaded[0].access_token, legacy[0].access_token);
    assert_eq!(reloaded[0].email, legacy[0].email);
}

#[test]
fn foreign_device_records_are_skipped_not_fatal() {
    let ours = encrypt_records(&vec![sample_account("a@example.com", "ours")], "device-one");
    let theirs = encrypt_records(&vec![sample_account("b@example.com", "theirs")], "device-two");
    let mut mixed = Vec::new();
    mixed.extend(ours);
    mixed.extend(theirs);
    let loaded = decrypt_records(&mixed, "device-one");
    assert_eq!(loaded.len(), 1);
    assert_eq!(loaded[0].email, "a@example.com");
}

#[test]
fn delete_present_id_removes_one_and_persists() {
    let a = sample_account("x@example.com", "x");
    let b = sample_account("y@example.com", "y");
    let id = a.id.clone();
    let mut store = AccountStore::from_accounts(vec![a, b]);
    assert_eq!(store.save_count, 0);
    let deleted = store.delete(&id);
    assert!(deleted);
    assert_eq!(store.accounts.len(), 1);
    assert_eq!(store.accounts[0].email, "y@example.com");
    assert_eq!(store.save_count, 1);
}

#[test]
fn delete_absent_id_is_a_noop_without_persistence() {
    let a = sample_account("x@example.com", "x");
    let mut store = AccountStore::from_accounts(vec![a]);
    let deleted = store.delete("no-such-id");
    assert!(!deleted);
    assert_eq!(store.accounts.len(), 1);
    assert_eq!(store.save_count, 0);
}

#[test]
fn delete_many_removes_set_and_persists_once() {
    let a = sample_account("a@example.com", "a");
    let b = sample_account("b@example.com", "b");
    let c = sample_account("c@example.com", "c");
    let ids = vec![a.id.clone(), c.id.clone()];
    let mut store = AccountStore::from_accounts(vec![a, b, c]);
    let removed = store.delete_many(&ids);
    assert_eq!(removed, 2);
    assert_eq!(store.accounts.len(), 1);
    assert_eq!(store.accounts[0].email, "b@example.com");
    assert_eq!(store.save_count, 1);

    let removed_again = store.delete_many(&ids);
    assert_eq!(removed_again, 0);
    assert_eq!(store.save_count, 1);
}

#[test]
fn import_deduplicates_on_id_and_saves() {
    let a = sample_account("a@example.com", "a");
    let duplicate = clone_account(&a);
    let fresh = sample_account("new@example.com", "new");
    let mut store = AccountStore::from_accounts(vec![a]);
    let count = store.import_accounts(vec![duplicate, fresh]);
    assert_eq!(count, 2);
    assert_eq!(store.accounts.len(), 2);
    assert_eq!(store.save_count, 1);
}

#[test]
fn get_all_returns_records_in_order() {
    let a = sample_account("a@example.com", "a");
    let b = sample_account("b@example.com", "b");
    let store = AccountStore::from_accounts(vec![a, b]);
    let all = store.get_all();
    assert_eq!(all.len(), 2);
    assert_eq!(all[0].email, "a@example.com");
    assert_eq!(all[1].email, "b@example.com");
}

#[test]
fn new_account_has_fresh_id_and_normal_status() {
    let a = Account::new("n@example.com".to_string(), "l".to_string());
    assert_eq!(a.id.len(), 36);
    assert_eq!(a.status, "正常");
    assert!(a.access_token.is_none());
    let b = Account::new("n@example.com".to_string(), "l".to_string());
    assert_ne!(a.id, b.id);
}
