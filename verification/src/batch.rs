//! Batch credential import: bounded concurrency parameters, per-item outcome
//! assembly in original order, account construction from acquisition results,
//! and the single-lock reconciliation of produced records into the vault.
//!
//! The acquisition tasks themselves (token refresh and usage probe over the
//! network) run in the embedder; this module owns every decision around them.

use vstd::prelude::*;
use vstd::pervasive::unreached;
use vstd::utf8::encode_utf8;

use crate::account::Account;
use crate::account::AccountStore;
use crate::account::clone_account;
use crate::primitives::hex_encode;
use crate::primitives::hex_of;
use crate::primitives::now_local_plus_seconds_formatted;
use crate::primitives::sha256;
use crate::primitives::sha256_of;
use crate::text::contains_str;
use crate::text::has_substring;
use crate::text::str_eq;
use crate::text::truncate_chars;

verus! {

/// One requested credential import.
#[derive(Debug)]
pub struct ImportItem {
    pub refresh_token: String,
    pub provider: Option<String>,
    pub client_id: Option<String>,
    pub client_secret: Option<String>,
    pub region: Option<String>,
}

/// The reported outcome of one import, keyed by its original position.
#[derive(Debug)]
pub struct ImportItemResult {
    pub index: usize,
    pub success: bool,
    pub email: Option<String>,
    pub error: Option<String>,
}

/// The whole batch's report: totals and the per-item outcomes in original
/// order.
#[derive(Debug)]
pub struct BatchImportResult {
    pub total: usize,
    pub success_count: usize,
    pub failed_count: usize,
    pub results: Vec<ImportItemResult>,
}

/// Clamps the requested concurrency into [1, 20], defaulting to 5.
pub fn clamp_concurrency(requested: Option<usize>) -> (r: usize)
    ensures
        r == (match requested {
            None => 5int,
            Some(v) => if v < 1 {
                1int
            } else if v > 20 {
                20int
            } else {
                v as int
            },
        }),
{
    match requested {
        None => 5,
        Some(v) => if v < 1 {
            1
        } else if v > 20 {
            20
        } else {
            v
        },
    }
}

/// An item with both an enterprise client id and secret takes the IdC flow.
pub fn is_idc_item(item: &ImportItem) -> (r: bool)
    ensures
        r == (item.client_id is Some && item.client_secret is Some),
{
    item.client_id.is_some() && item.client_secret.is_some()
}

/// The provider recorded for a social account: the requested one, else
/// guessed from the email address.
pub open spec fn inferred_provider(provider: Option<Seq<char>>, email: Seq<char>) -> Seq<char> {
    match provider {
        Some(p) => p,
        None => if has_substring(email, "gmail"@) {
            "Google"@
        } else if has_substring(email, "github"@) {
            "GitHub"@
        } else {
            "Google"@
        },
    }
}

fn infer_provider(provider: Option<String>, email: &str) -> (r: String)
    ensures
        r@ == inferred_provider(provider.deep_view(), email@),
{
    match provider {
        Some(p) => p,
        None => {
            if contains_str(email, "gmail") {
                "Google".to_owned()
            } else if contains_str(email, "github") {
                "GitHub".to_owned()
            } else {
                "Google".to_owned()
            }
        },
    }
}

/// Builds the vault record for one social-provider acquisition: tokens from
/// the refresh, identity from the usage probe (with fallbacks), the banned
/// flag as the status, and the raw usage snapshot.
pub fn build_social_account(
    access_token: String,
    new_refresh_token: String,
    provider: Option<String>,
    email: Option<String>,
    user_id: Option<String>,
    banned: bool,
    usage_json: String,
) -> (r: Account)
    ensures
        r.id@.len() == 36,
        r.email@ == (match email {
            Some(e) => e@,
            None => "unknown@kiro.dev"@,
        }),
        r.provider.deep_view() == Some(
            inferred_provider(
                provider.deep_view(),
                match email {
                    Some(e) => e@,
                    None => "unknown@kiro.dev"@,
                },
            ),
        ),
        r.label@ == "Kiro "@ + inferred_provider(
            provider.deep_view(),
            match email {
                Some(e) => e@,
                None => "unknown@kiro.dev"@,
            },
        ) + " 账号"@,
        r.access_token.deep_view() == Some(access_token@),
        r.refresh_token.deep_view() == Some(new_refresh_token@),
        r.user_id == user_id,
        r.usage_data.deep_view() == Some(usage_json@),
        r.status@ == (if banned {
            "已封禁"@
        } else {
            "正常"@
        }),
        r.csrf_token is None,
        r.session_token is None,
        r.expires_at is None,
        r.client_id is None,
        r.client_secret is None,
        r.region is None,
        r.client_id_hash is None,
        r.sso_session_id is None,
        r.id_token is None,
        r.profile_arn is None,
{
    let email_value = match email {
        Some(e) => e,
        None => "unknown@kiro.dev".to_owned(),
    };
    let idp = infer_provider(provider, email_value.as_str());
    let mut label = "Kiro ".to_owned();
    label.append(idp.as_str());
    label.append(" 账号");
    let mut account = Account::new(email_value, label);
    account.access_token = Some(access_token);
    account.refresh_token = Some(new_refresh_token);
    account.provider = Some(idp);
    account.user_id = user_id;
    account.usage_data = Some(usage_json);
    if banned {
        account.status = "已封禁".to_owned();
    }
    account
}

/// Builds the vault record for one enterprise (IdC) acquisition: the token
/// set from the refresh, the client pair and region (defaulted), the fixed
/// start-URL hash, an expiry computed from now, and the usage snapshot.
pub fn build_idc_account(
    access_token: String,
    refresh_token: String,
    id_token: Option<String>,
    sso_session_id: Option<String>,
    expires_in: i64,
    client_id: String,
    client_secret: String,
    region: Option<String>,
    email: Option<String>,
    user_id: Option<String>,
    banned: bool,
    usage_json: String,
) -> (r: Account)
    ensures
        r.id@.len() == 36,
        r.email@ == (match email {
            Some(e) => e@,
            None => "builderid@kiro.dev"@,
        }),
        r.label@ == "Kiro BuilderId 账号"@,
        r.provider.deep_view() == Some("BuilderId"@),
        r.access_token.deep_view() == Some(access_token@),
        r.refresh_token.deep_view() == Some(refresh_token@),
        r.id_token == id_token,
        r.sso_session_id == sso_session_id,
        r.user_id == user_id,
        r.client_id.deep_view() == Some(client_id@),
        r.client_secret.deep_view() == Some(client_secret@),
        r.region.deep_view() == Some(
            match region {
                Some(g) => g@,
                None => "us-east-1"@,
            },
        ),
        r.client_id_hash.deep_view() == Some(
            hex_of(sha256_of(encode_utf8("https://view.awsapps.com/start"@))),
        ),
        r.usage_data.deep_view() == Some(usage_json@),
        r.status@ == (if banned {
            "已封禁"@
        } else {
            "正常"@
        }),
        r.csrf_token is None,
        r.session_token is None,
        r.profile_arn is None,
{
    let region_value = match region {
        Some(g) => g,
        None => "us-east-1".to_owned(),
    };
    let start_url = "https://view.awsapps.com/start";
    let digest = sha256(start_url.as_bytes());
    let client_id_hash = hex_encode(digest.as_slice());
    let email_value = match email {
        Some(e) => e,
        None => "builderid@kiro.dev".to_owned(),
    };
    let mut account = Account::new(email_value, "Kiro BuilderId 账号".to_owned());
    account.access_token = Some(access_token);
    account.refresh_token = Some(refresh_token);
    account.provider = Some("BuilderId".to_owned());
    account.user_id = user_id;
    account.expires_at = now_local_plus_seconds_formatted(expires_in);
    account.client_id = Some(client_id);
    account.client_secret = Some(client_secret);
    account.region = Some(region_value);
    account.client_id_hash = Some(client_id_hash);
    account.id_token = id_token;
    account.sso_session_id = sso_session_id;
    account.usage_data = Some(usage_json);
    if banned {
        account.status = "已封禁".to_owned();
    }
    account
}

/// Turns one task outcome into its report row and, on success, the record to
/// reconcile. Error text is truncated to its first 100 characters.
pub fn item_outcome(index: usize, outcome: Result<Account, String>) -> (r: (
    ImportItemResult,
    Option<Account>,
))
    ensures
        r.0.index == index,
        match outcome {
            Ok(a) => {
                &&& r.0.success
                &&& (r.0.email matches Some(e) && e@ == a.email@)
                &&& r.0.error is None
                &&& (r.1 matches Some(acc) && acc == a)
            },
            Err(m) => {
                &&& !r.0.success
                &&& r.0.email is None
                &&& (r.0.error matches Some(t) && t@ == (if m@.len() <= 100 {
                    m@
                } else {
                    m@.take(100)
                }))
                &&& r.1 is None
            },
        },
{
    match outcome {
        Ok(account) => {
            let email = account.email.clone();
            (
                ImportItemResult { index, success: true, email: Some(email), error: None },
                Some(account),
            )
        },
        Err(message) => {
            let short = truncate_chars(message.as_str(), 100);
            (
                ImportItemResult { index, success: false, email: None, error: Some(short) },
                None,
            )
        },
    }
}

/// Clones a report row, preserving equality.
fn clone_item_result(r0: &ImportItemResult) -> (r: ImportItemResult)
    ensures
        r == *r0,
{
    ImportItemResult {
        index: r0.index,
        success: r0.success,
        email: crate::account::clone_opt_string(&r0.email),
        error: crate::account::clone_opt_string(&r0.error),
    }
}

/// The records the successful rows carry, in the order given.
pub open spec fn collect_accounts(pairs: Seq<(ImportItemResult, Option<Account>)>) -> Seq<Account>
    decreases pairs.len(),
{
    if pairs.len() == 0 {
        Seq::empty()
    } else {
        let rest = collect_accounts(pairs.drop_last());
        match pairs.last().1 {
            Some(a) => rest.push(a),
            None => rest,
        }
    }
}

/// Some row among the first `j` carries original index `i`.
pub open spec fn index_covered_upto(
    pairs: Seq<(ImportItemResult, Option<Account>)>,
    j: int,
    i: int,
) -> bool {
    exists|j2: int| 0 <= j2 < j && (#[trigger] pairs[j2].0.index) as int == i
}

/// How many rows report success.
pub open spec fn success_count_of(results: Seq<ImportItemResult>) -> int {
    results.filter(|ir: ImportItemResult| ir.success).len() as int
}

/// Restores original request order and totals from the unordered task
/// outcomes: row `i` of the report is the outcome whose index is `i`, the
/// counts split the total, and the produced records are handed back in task
/// completion order.
pub fn assemble_batch_result(pairs: Vec<(ImportItemResult, Option<Account>)>) -> (r: (
    BatchImportResult,
    Vec<Account>,
))
    requires
        forall|j: int|
            0 <= j < pairs@.len() ==> (#[trigger] pairs@[j].0.index as int) < pairs@.len(),
        forall|i: int|
            0 <= i < pairs@.len() ==> #[trigger] index_covered_upto(pairs@, pairs@.len() as int, i),
    ensures
        r.0.total == pairs@.len(),
        r.0.results@.len() == pairs@.len(),
        forall|i: int|
            0 <= i < r.0.results@.len() ==> (#[trigger] r.0.results@[i].index as int) == i
                && exists|j: int| 0 <= j < pairs@.len() && r.0.results@[i] == pairs@[j].0,
        r.0.success_count == success_count_of(r.0.results@),
        r.0.failed_count == r.0.total - r.0.success_count,
        r.1@ == collect_accounts(pairs@),
{
    let total = pairs.len();
    let mut slots: Vec<Option<ImportItemResult>> = Vec::new();
    let mut i: usize = 0;
    while i < total
        invariant
            0 <= i <= total,
            slots@.len() == i,
            forall|t: int| 0 <= t < i ==> (#[trigger] slots@[t]) is None,
        decreases total - i,
    {
        slots.push(None);
        i = i + 1;
    }
    let mut accounts: Vec<Account> = Vec::new();
    let mut j: usize = 0;
    while j < total
        invariant
            0 <= j <= total,
            total == pairs@.len(),
            slots@.len() == total,
            forall|t: int|
                0 <= t < total ==> ((#[trigger] slots@[t]) matches Some(ir) ==> ir.index as int
                    == t && exists|j2: int| 0 <= j2 < pairs@.len() && ir == pairs@[j2].0),
            forall|t: int|
                0 <= t < total && #[trigger] index_covered_upto(pairs@, j as int, t) ==> slots@[t]
                    is Some,
            forall|j2: int|
                0 <= j2 < pairs@.len() ==> (#[trigger] pairs@[j2].0.index as int) < total,
            accounts@ == collect_accounts(pairs@.take(j as int)),
        decreases total - j,
    {
        let row = clone_item_result(&pairs[j].0);
        let idx = row.index;
        let ghost pre_slots = slots@;
        let ghost row_snap = row;
        slots.remove(idx);
        slots.insert(idx, Some(row));
        proof {
            assert(slots@ =~= pre_slots.update(idx as int, Some(row_snap)));
            assert forall|t: int|
                0 <= t < total && #[trigger] index_covered_upto(pairs@, j + 1 as int, t) implies ({
                let s2 = pre_slots.update(idx as int, Some(row_snap));
                s2[t] is Some
            }) by {
                let s2 = pre_slots.update(idx as int, Some(row_snap));
                let j2 = choose|j2: int| 0 <= j2 < j + 1 && (#[trigger] pairs@[j2].0.index) as int
                    == t;
                if j2 < j {
                    assert(index_covered_upto(pairs@, j as int, t));
                    assert(pre_slots[t] is Some);
                } else {
                    assert(t == idx as int);
                }
            }
        }
        match &pairs[j].1 {
            Some(a) => {
                accounts.push(clone_account(a));
            },
            None => {},
        }
        proof {
            let pre = pairs@.take(j + 1 as int);
            assert(pre.drop_last() =~= pairs@.take(j as int));
            assert(pre.last() == pairs@[j as int]);
        }
        j = j + 1;
    }
    proof {
        assert(pairs@.take(pairs@.len() as int) =~= pairs@);
    }
    let mut results: Vec<ImportItemResult> = Vec::new();
    let mut k: usize = 0;
    while k < total
        invariant
            0 <= k <= total,
            total == pairs@.len(),
            slots@.len() == total,
            forall|t: int|
                0 <= t < total ==> ((#[trigger] slots@[t]) matches Some(ir) ==> ir.index as int
                    == t && exists|j2: int| 0 <= j2 < pairs@.len() && ir == pairs@[j2].0),
            forall|t: int|
                0 <= t < total && #[trigger] index_covered_upto(pairs@, pairs@.len() as int, t)
                    ==> slots@[t] is Some,
            results@.len() == k,
            forall|t: int|
                0 <= t < k ==> (#[trigger] results@[t].index as int) == t && exists|j2: int|
                    0 <= j2 < pairs@.len() && results@[t] == pairs@[j2].0,
            forall|i: int|
                0 <= i < total ==> #[trigger] index_covered_upto(pairs@, pairs@.len() as int, i),
        decreases total - k,
    {
        match &slots[k] {
            Some(ir) => {
                results.push(clone_item_result(ir));
            },
            None => {
                proof {
                    assert(index_covered_upto(pairs@, pairs@.len() as int, k as int));
                }
                unreached()
            },
        }
        k = k + 1;
    }
    let mut success_count: usize = 0;
    let ghost succ = |ir: ImportItemResult| ir.success;
    let mut c: usize = 0;
    while c < total
        invariant
            0 <= c <= total,
            total == results@.len(),
            succ == (|ir: ImportItemResult| ir.success),
            success_count as int == results@.take(c as int).filter(succ).len(),
            success_count <= c,
        decreases total - c,
    {
        proof {
            let pre = results@.take(c + 1 as int);
            assert(pre.drop_last() =~= results@.take(c as int));
            assert(pre.last() == results@[c as int]);
            reveal_with_fuel(Seq::filter, 2);
            if succ(pre.last()) {
                assert(pre.filter(succ) == pre.drop_last().filter(succ).push(pre.last()));
            } else {
                assert(pre.filter(succ) == pre.drop_last().filter(succ));
            }
        }
        if results[c].success {
            success_count = success_count + 1;
        }
        c = c + 1;
    }
    proof {
        assert(results@.take(results@.len() as int) =~= results@);
    }
    let failed_count = total - success_count;
    proof {
        results@.lemma_filter_len(succ);
    }
    (BatchImportResult { total, success_count, failed_count, results }, accounts)
}

/// Two records that reconcile into one vault entry: same email and provider.
pub open spec fn same_key(a: Account, b: Account) -> bool {
    a.email@ == b.email@ && a.provider.deep_view() == b.provider.deep_view()
}

/// Some record in `s` shares `a`'s dedup key.
pub open spec fn has_key(s: Seq<Account>, a: Account) -> bool {
    exists|i: int| 0 <= i < s.len() && same_key(#[trigger] s[i], a)
}

/// The first index in `s` sharing `a`'s dedup key, or -1.
pub open spec fn first_key_index(s: Seq<Account>, a: Account) -> int
    decreases s.len(),
{
    if s.len() == 0 {
        -1
    } else if same_key(s[0], a) {
        0
    } else {
        let rest = first_key_index(s.drop_first(), a);
        if rest < 0 {
            -1
        } else {
            rest + 1
        }
    }
}

proof fn lemma_first_key_index(s: Seq<Account>, a: Account)
    ensures
        first_key_index(s, a) >= -1,
        first_key_index(s, a) < s.len(),
        first_key_index(s, a) == -1 ==> forall|i: int| 0 <= i < s.len() ==> !same_key(
            #[trigger] s[i],
            a,
        ),
        first_key_index(s, a) >= 0 ==> same_key(s[first_key_index(s, a)], a) && (forall|i: int|
            0 <= i < first_key_index(s, a) ==> !same_key(#[trigger] s[i], a)),
        forall|j: int|
            0 <= j < s.len() && same_key(#[trigger] s[j], a) ==> first_key_index(s, a) >= 0
                && first_key_index(s, a) <= j,
    decreases s.len(),
{
    if s.len() > 0 && !same_key(s[0], a) {
        lemma_first_key_index(s.drop_first(), a);
        assert forall|i: int|
            first_key_index(s, a) == -1 && 0 <= i < s.len() implies !same_key(
            #[trigger] s[i],
            a,
        ) by {
            if i > 0 {
                assert(s[i] == s.drop_first()[i - 1]);
            }
        }
        assert forall|i: int|
            first_key_index(s, a) >= 0 && 0 <= i < first_key_index(s, a) implies !same_key(
            #[trigger] s[i],
            a,
        ) by {
            if i > 0 {
                assert(s[i] == s.drop_first()[i - 1]);
            }
        }
        assert forall|j: int|
            0 <= j < s.len() && same_key(#[trigger] s[j], a) implies first_key_index(s, a) >= 0
            && first_key_index(s, a) <= j by {
            assert(j > 0);
            assert(s.drop_first()[j - 1] == s[j]);
        }
    }
}

/// The record kept when `incoming` reconciles onto `existing`: identity and
/// creation metadata stay, the freshly acquired fields win.
pub open spec fn merge_into(existing: Account, incoming: Account) -> Account {
    Account {
        id: existing.id,
        email: existing.email,
        label: existing.label,
        added_at: existing.added_at,
        csrf_token: existing.csrf_token,
        session_token: existing.session_token,
        profile_arn: existing.profile_arn,
        provider: existing.provider,
        access_token: incoming.access_token,
        refresh_token: incoming.refresh_token,
        user_id: incoming.user_id,
        expires_at: incoming.expires_at,
        client_id: incoming.client_id,
        client_secret: incoming.client_secret,
        region: incoming.region,
        client_id_hash: incoming.client_id_hash,
        id_token: incoming.id_token,
        sso_session_id: incoming.sso_session_id,
        usage_data: incoming.usage_data,
        status: incoming.status,
    }
}

/// Reconciling one record: overwrite the first entry with its key, else
/// prepend it as a new entry.
pub open spec fn merge_one(s: Seq<Account>, a: Account) -> Seq<Account> {
    let i = first_key_index(s, a);
    if i >= 0 {
        s.update(i, merge_into(s[i], a))
    } else {
        seq![a] + s
    }
}

/// Reconciling a list of records, left to right.
pub open spec fn merge_all(s: Seq<Account>, incoming: Seq<Account>) -> Seq<Account>
    decreases incoming.len(),
{
    if incoming.len() == 0 {
        s
    } else {
        merge_all(merge_one(s, incoming[0]), incoming.drop_first())
    }
}

proof fn lemma_merge_all_snoc(s: Seq<Account>, pre: Seq<Account>, x: Account)
    ensures
        merge_all(s, pre.push(x)) == merge_one(merge_all(s, pre), x),
    decreases pre.len(),
{
    if pre.len() == 0 {
        assert(pre.push(x)[0] == x);
        assert(pre.push(x).drop_first() =~= Seq::<Account>::empty());
        assert(merge_all(s, pre.push(x)) == merge_all(merge_one(s, x), pre.push(x).drop_first()));
        assert(merge_all(merge_one(s, x), pre.push(x).drop_first()) == merge_one(s, x));
        assert(merge_all(s, pre) == s);
    } else {
        assert(pre.push(x)[0] == pre[0]);
        assert(pre.push(x).drop_first() =~= pre.drop_first().push(x));
        assert(merge_all(s, pre.push(x)) == merge_all(
            merge_one(s, pre[0]),
            pre.drop_first().push(x),
        ));
        lemma_merge_all_snoc(merge_one(s, pre[0]), pre.drop_first(), x);
        assert(merge_all(s, pre) == merge_all(merge_one(s, pre[0]), pre.drop_first()));
    }
}


/// A record carried by the reconciled vault had its id either in the vault
/// already or on the incoming record.
proof fn lemma_merge_one_ids(s: Seq<Account>, a: Account, id: Seq<char>)
    requires
        crate::account::has_account_id(merge_one(s, a), id),
    ensures
        crate::account::has_account_id(s, id) || id == a.id@,
{
    let t = merge_one(s, a);
    let k = choose|k: int| 0 <= k < t.len() && (#[trigger] t[k].id@) == id;
    let i = first_key_index(s, a);
    if i >= 0 {
        lemma_first_key_index(s, a);
        if k == i {
            assert(t[k].id@ == s[i].id@);
        } else {
            assert(t[k] == s[k]);
        }
    } else {
        if k == 0 {
            assert(t[0] == a);
        } else {
            assert(t[k] == s[k - 1]);
        }
    }
}

/// Reconciling one record keeps ids unique, provided a genuinely new record
/// carries a fresh id: an overwrite keeps the existing id, an insert adds one
/// id that was not there.
pub proof fn lemma_merge_one_preserves_unique_ids(s: Seq<Account>, a: Account)
    requires
        crate::account::unique_ids(s),
        !crate::account::has_account_id(s, a.id@),
    ensures
        crate::account::unique_ids(merge_one(s, a)),
{
    let t = merge_one(s, a);
    let i = first_key_index(s, a);
    if i >= 0 {
        lemma_first_key_index(s, a);
        assert forall|x: int, y: int| 0 <= x < y < t.len() implies (#[trigger] t[x].id@)
            != (#[trigger] t[y].id@) by {
            assert(t[x].id@ == s[x].id@);
            assert(t[y].id@ == s[y].id@);
        }
    } else {
        assert forall|x: int, y: int| 0 <= x < y < t.len() implies (#[trigger] t[x].id@)
            != (#[trigger] t[y].id@) by {
            if x == 0 {
                assert(t[0] == a);
                assert(t[y] == s[y - 1]);
                if s[y - 1].id@ == a.id@ {
                    assert(crate::account::has_account_id(s, a.id@));
                }
            } else {
                assert(t[x] == s[x - 1]);
                assert(t[y] == s[y - 1]);
            }
        }
    }
}


/// Reconciling a whole batch keeps ids unique, provided the genuinely new
/// records carry fresh, pairwise distinct ids.
pub proof fn lemma_merge_all_preserves_unique_ids(s: Seq<Account>, incoming: Seq<Account>)
    requires
        crate::account::unique_ids(s),
        forall|k: int|
            0 <= k < incoming.len() ==> !crate::account::has_account_id(
                s,
                #[trigger] incoming[k].id@,
            ),
        forall|k1: int, k2: int|
            0 <= k1 < k2 < incoming.len() ==> incoming[k1].id@ != incoming[k2].id@,
    ensures
        crate::account::unique_ids(merge_all(s, incoming)),
    decreases incoming.len(),
{
    if incoming.len() > 0 {
        let a = incoming[0];
        let s1 = merge_one(s, a);
        lemma_merge_one_preserves_unique_ids(s, a);
        let rest = incoming.drop_first();
        assert forall|k: int|
            0 <= k < rest.len() implies !crate::account::has_account_id(
            s1,
            #[trigger] rest[k].id@,
        ) by {
            assert(rest[k] == incoming[k + 1]);
            if crate::account::has_account_id(s1, rest[k].id@) {
                lemma_merge_one_ids(s, a, rest[k].id@);
                assert(incoming[0].id@ != incoming[k + 1].id@);
            }
        }
        assert forall|k1: int, k2: int| 0 <= k1 < k2 < rest.len() implies rest[k1].id@
            != rest[k2].id@ by {
            assert(rest[k1] == incoming[k1 + 1]);
            assert(rest[k2] == incoming[k2 + 1]);
        }
        lemma_merge_all_preserves_unique_ids(s1, rest);
    }
}

/// Whether both optional strings hold the same characters (or are both
/// absent).
fn opt_str_eq(a: &Option<String>, b: &Option<String>) -> (r: bool)
    ensures
        r == (a.deep_view() == b.deep_view()),
{
    match (a, b) {
        (Some(x), Some(y)) => str_eq(x.as_str(), y.as_str()),
        (None, None) => true,
        _ => {
            proof {
                assert(a.deep_view() != b.deep_view());
            }
            false
        },
    }
}

/// Finds the first vault record sharing the incoming record's key.
fn find_same_key(accounts: &Vec<Account>, a: &Account) -> (r: Option<usize>)
    ensures
        match r {
            Some(i) => i as int == first_key_index(accounts@, *a) && i < accounts@.len(),
            None => first_key_index(accounts@, *a) == -1,
        },
{
    let mut k: usize = 0;
    while k < accounts.len()
        invariant
            0 <= k <= accounts@.len(),
            forall|i: int| 0 <= i < k ==> !same_key(#[trigger] accounts@[i], *a),
        decreases accounts@.len() - k,
    {
        if str_eq(accounts[k].email.as_str(), a.email.as_str()) && opt_str_eq(
            &accounts[k].provider,
            &a.provider,
        ) {
            proof {
                lemma_first_key_index(accounts@, *a);
                let fi = first_key_index(accounts@, *a);
                assert(same_key(accounts@[k as int], *a));
                assert(fi >= 0 && fi <= k);
                if fi < k {
                    assert(!same_key(accounts@[fi], *a));
                    assert(same_key(accounts@[fi], *a));
                }
            }
            return Some(k);
        }
        k = k + 1;
    }
    proof {
        lemma_first_key_index(accounts@, *a);
        if first_key_index(accounts@, *a) >= 0 {
            assert(same_key(accounts@[first_key_index(accounts@, *a)], *a));
            assert(!same_key(accounts@[first_key_index(accounts@, *a)], *a));
        }
    }
    None
}

/// Overwrites an existing record's acquired fields with the incoming ones.
fn apply_merge(existing: &Account, incoming: Account) -> (r: Account)
    ensures
        r == merge_into(*existing, incoming),
{
    Account {
        id: existing.id.clone(),
        email: existing.email.clone(),
        label: existing.label.clone(),
        added_at: existing.added_at.clone(),
        csrf_token: crate::account::clone_opt_string(&existing.csrf_token),
        session_token: crate::account::clone_opt_string(&existing.session_token),
        profile_arn: crate::account::clone_opt_string(&existing.profile_arn),
        provider: crate::account::clone_opt_string(&existing.provider),
        access_token: incoming.access_token,
        refresh_token: incoming.refresh_token,
        user_id: incoming.user_id,
        expires_at: incoming.expires_at,
        client_id: incoming.client_id,
        client_secret: incoming.client_secret,
        region: incoming.region,
        client_id_hash: incoming.client_id_hash,
        id_token: incoming.id_token,
        sso_session_id: incoming.sso_session_id,
        usage_data: incoming.usage_data,
        status: incoming.status,
    }
}

/// Reconciles a batch's produced records into the vault under one critical
/// section: each record overwrites the first entry sharing its (email,
/// provider) key or is inserted in front, and exactly one save is triggered
/// for the whole batch when it is non-empty.
pub fn merge_batch(store: &mut AccountStore, accounts: Vec<Account>)
    requires
        old(store).save_count < u64::MAX,
    ensures
        final(store).accounts@ == merge_all(old(store).accounts@, accounts@),
        accounts@.len() > 0 ==> final(store).save_count == old(store).save_count + 1,
        accounts@.len() == 0 ==> final(store).save_count == old(store).save_count,
{
    let ghost base = store.accounts@;
    let empty = accounts.len() == 0;
    let mut k: usize = 0;
    while k < accounts.len()
        invariant
            0 <= k <= accounts@.len(),
            store.accounts@ == merge_all(base, accounts@.take(k as int)),
            store.save_count == old(store).save_count,
            base == old(store).accounts@,
        decreases accounts@.len() - k,
    {
        let a = clone_account(&accounts[k]);
        proof {
            assert(accounts@.take(k + 1 as int) =~= accounts@.take(k as int).push(
                accounts@[k as int],
            ));
            lemma_merge_all_snoc(base, accounts@.take(k as int), accounts@[k as int]);
        }
        match find_same_key(&store.accounts, &a) {
            Some(i) => {
                let merged = apply_merge(&store.accounts[i], a);
                let ghost pre = store.accounts@;
                store.accounts.remove(i);
                store.accounts.insert(i, merged);
                proof {
                    assert(store.accounts@ =~= pre.update(
                        i as int,
                        merge_into(pre[i as int], accounts@[k as int]),
                    ));
                }
            },
            None => {
                store.accounts.insert(0, a);
                proof {
                    assert(store.accounts@ =~= seq![accounts@[k as int]] + merge_all(
                        base,
                        accounts@.take(k as int),
                    ));
                }
            },
        }
        k = k + 1;
    }
    proof {
        assert(accounts@.take(accounts@.len() as int) =~= accounts@);
    }
    if !empty {
        store.save_count = store.save_count + 1;
    }
}

/// Two batch items sharing a dedup key that is new to the vault reconcile
/// into a single record, the second item's acquired fields winning.
pub proof fn lemma_same_key_items_merge(s: Seq<Account>, a1: Account, a2: Account)
    requires
        same_key(a1, a2),
        !has_key(s, a1),
    ensures
        merge_all(s, seq![a1, a2]) == seq![merge_into(a1, a2)] + s,
        merge_all(s, seq![a1, a2]).len() == s.len() + 1,
{
    lemma_first_key_index(s, a1);
    if first_key_index(s, a1) >= 0 {
        assert(same_key(s[first_key_index(s, a1)], a1));
        assert(has_key(s, a1));
    }
    assert(first_key_index(s, a1) == -1);
    let s1 = merge_one(s, a1);
    assert(s1 == seq![a1] + s);
    assert(seq![a1, a2][0] == a1);
    assert(seq![a1, a2].drop_first() =~= seq![a2]);
    assert(merge_all(s, seq![a1, a2]) == merge_all(s1, seq![a2]));
    assert(seq![a2][0] == a2);
    assert(seq![a2].drop_first() =~= Seq::<Account>::empty());
    assert(merge_all(s1, seq![a2]) == merge_all(merge_one(s1, a2), seq![a2].drop_first()));
    assert(merge_all(merge_one(s1, a2), seq![a2].drop_first()) == merge_one(s1, a2));
    assert(s1[0] == a1);
    assert(same_key(s1[0], a2));
    assert(first_key_index(s1, a2) == 0);
    assert(merge_one(s1, a2) == s1.update(0, merge_into(a1, a2)));
    assert(s1.update(0, merge_into(a1, a2)) =~= seq![merge_into(a1, a2)] + s);
}

} // verus!
