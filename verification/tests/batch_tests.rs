use kiro_vault::account::{Account, AccountStore};
use sha2::Digest;
use kiro_vault::batch::{
    assemble_batch_result, build_idc_account, build_social_account, clamp_concurrency,
    is_idc_item, item_outcome, merge_batch, ImportItem,
};

fn social(email: &str, secret: &str) -> Account {
    build_social_account(
        format!("at-{}", secret),
        format!("rt-{}", secret),
        None,
        Some(email.to_string()),
        Some("user-1".to_string()),
        false,
        "{}".to_string(),
    )
}

#[test]
fn concurrency_is_clamped_into_bounds() {
    assert_eq!(clamp_concurrency(None), 5);
    assert_eq!(clamp_concurrency(Some(0)), 1);
    assert_eq!(clamp_concurrency(Some(2)), 2);
    assert_eq!(clamp_concurrency(Some(20)), 20);
    assert_eq!(clamp_concurrency(Some(50)), 20);
}

#[test]
fn idc_items_need_both_client_fields() {
    let item = ImportItem {
        refresh_token: "aor-x".to_string(),
        provider: None,
        client_id: Some("cid".to_string()),
        client_secret: None,
        region: None,
    };
    assert!(!is_idc_item(&item));
    let full = ImportItem { client_secret: Some("sec".to_string()), ..item };
    assert!(is_idc_item(&full));
}

#[test]
fn batch_of_three_with_one_failure_reports_in_order_and_persists_once() {
    // items 0 and 2 succeed, item 1 fails acquisition; completion order is
    // scrambled as under concurrency (here the bound would be 2).
    assert_eq!(clamp_concurrency(Some(2)), 2);
    let pairs = vec![
        item_outcome(2, Ok(social("two@example.com", "t2"))),
        item_outcome(0, Ok(social("zero@example.com", "t0"))),
        item_outcome(1, Err("network unreachable".to_string())),
    ];
    let (report, accounts) = assemble_batch_result(pairs);
    assert_eq!(report.total, 3);
    assert_eq!(report.success_count, 2);
    assert_eq!(report.failed_count, 1);
    assert_eq!(report.results.len(), 3);
    for (i, row) in report.results.iter().enumerate() {
        assert_eq!(row.index, i);
    }
    assert!(report.results[0].success);
    assert!(!report.results[1].success);
    assert!(report.results[2].success);
    assert_eq!(report.results[1].error.as_deref(), Some("network unreachable"));

    let mut store = AccountStore::new();
    merge_batch(&mut store, accounts);
    assert_eq!(store.accounts.len(), 2);
    assert_eq!(store.save_count, 1);
}

#[test]
fn same_key_items_merge_into_one_record_second_wins() {
    let first = social("dup@example.com", "first");
    let second = social("dup@example.com", "second");
    let mut store = AccountStore::new();
    merge_batch(&mut store, vec![first, second]);
    assert_eq!(store.accounts.len(), 1);
    assert_eq!(store.accounts[0].access_token.as_deref(), Some("at-second"));
    assert_eq!(store.accounts[0].refresh_token.as_deref(), Some("rt-second"));
    assert_eq!(store.save_count, 1);
}

#[test]
fn empty_batch_does_not_persist() {
    let mut store = AccountStore::new();
    merge_batch(&mut store, Vec::new());
    assert_eq!(store.save_count, 0);
}

#[test]
fn merge_updates_existing_record_in_place() {
    let existing = social("keep@example.com", "old");
    let id_before = existing.id.clone();
    let mut store = AccountStore::from_accounts(vec![existing]);
    let fresh = social("keep@example.com", "new");
    merge_batch(&mut store, vec![fresh]);
    assert_eq!(store.accounts.len(), 1);
    assert_eq!(store.accounts[0].id, id_before);
    assert_eq!(store.accounts[0].access_token.as_deref(), Some("at-new"));
}

#[test]
fn error_text_is_truncated_to_one_hundred_chars() {
    let long = "x".repeat(150);
    let (row, account) = item_outcome(4, Err(long));
    assert!(account.is_none());
    assert_eq!(row.index, 4);
    assert_eq!(row.error.as_ref().unwrap().chars().count(), 100);
}

#[test]
fn social_provider_is_inferred_from_email() {
    let g = social("someone@gmail.com", "g");
    assert_eq!(g.provider.as_deref(), Some("Google"));
    let h = social("someone@users.github.com", "h");
    assert_eq!(h.provider.as_deref(), Some("GitHub"));
    let other = social("someone@example.com", "o");
    assert_eq!(other.provider.as_deref(), Some("Google"));
    let forced = build_social_account(
        "at".to_string(),
        "rt".to_string(),
        Some("Custom".to_string()),
        Some("someone@gmail.com".to_string()),
        None,
        false,
        "{}".to_string(),
    );
    assert_eq!(forced.provider.as_deref(), Some("Custom"));
    assert_eq!(forced.label, "Kiro Custom 账号");
}

#[test]
fn banned_probe_outcome_sets_banned_status() {
    let banned = build_social_account(
        "at".to_string(),
        "rt".to_string(),
        None,
        None,
        None,
        true,
        "null".to_string(),
    );
    assert_eq!(banned.status, "已封禁");
    assert_eq!(banned.email, "unknown@kiro.dev");
}

#[test]
fn idc_account_carries_client_pair_and_start_url_hash() {
    let account = build_idc_account(
        "at".to_string(),
        "rt".to_string(),
        Some("idt".to_string()),
        None,
        3600,
        "client-id".to_string(),
        "client-secret".to_string(),
        None,
        None,
        Some("uid".to_string()),
        false,
        "{}".to_string(),
    );
    assert_eq!(account.email, "builderid@kiro.dev");
    assert_eq!(account.provider.as_deref(), Some("BuilderId"));
    assert_eq!(account.region.as_deref(), Some("us-east-1"));
    assert_eq!(account.label, "Kiro BuilderId 账号");
    let expected = hex::encode(sha2::Sha256::digest("https://view.awsapps.com/start".as_bytes()));
    assert_eq!(account.client_id_hash.as_deref(), Some(expected.as_str()));
    assert!(account.expires_at.is_some());
}
