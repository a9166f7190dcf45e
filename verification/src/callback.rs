//! Single-slot OAuth callback rendezvous.
//!
//! A login attempt registers one waiter with an expected state token; an
//! inbound deep-link URL is parsed and judged against that slot. The slot is
//! consumed by exactly one outcome (success or a definite error) and is put
//! back only when the URL is not for this scheme at all; the embedder owns
//! the reply channel and the 300-second timeout.

use vstd::prelude::*;

use crate::errors::CallbackError;
use crate::errors::ValidationError;
use crate::primitives::parse_url_parts;
use crate::primitives::parsed_url_of;
use crate::state_token::generate_secure_state;
use crate::state_token::state_token_of;
use crate::state_token::state_validation;
use crate::state_token::validate_state_signature;
use crate::state_token::STATE_VALIDITY_SECONDS;
use crate::text::str_eq;

verus! {

/// The registered half of one login attempt: the state token the callback
/// must echo.
#[derive(Debug)]
pub struct PendingCallback {
    pub expected_state: String,
}

/// The single slot for the one live login attempt.
#[derive(Debug)]
pub struct CallbackCoordinator {
    pub pending: Option<PendingCallback>,
}

/// What a successful callback hands back to the waiting login flow.
#[derive(Debug, Clone)]
pub struct OAuthCallbackResult {
    pub code: String,
    pub state: String,
}

/// The waiter a registration returns: the state it expects and the bound on
/// how long the embedder should wait for fulfilment.
#[derive(Debug)]
pub struct DeepLinkCallbackWaiter {
    pub expected_state: String,
    pub timeout_seconds: u64,
}

impl DeepLinkCallbackWaiter {
    /// The redirect URI handed to the provider.
    pub fn get_redirect_uri() -> (r: String)
        ensures
            r@ == "kiro://kiro.kiroAgent/authenticate-success"@,
    {
        "kiro://kiro.kiroAgent/authenticate-success".to_owned()
    }
}

impl CallbackCoordinator {
    /// A coordinator with no pending login attempt.
    pub fn new() -> (r: CallbackCoordinator)
        ensures
            r.pending is None,
    {
        CallbackCoordinator { pending: None }
    }
}

/// Registers a waiter for this state token, silently replacing any pending
/// attempt, and returns the waiter with the 300-second timeout.
pub fn register_waiter(coordinator: &mut CallbackCoordinator, state: &str) -> (r:
    DeepLinkCallbackWaiter)
    ensures
        final(coordinator).pending matches Some(p) && p.expected_state@ == state@,
        r.expected_state@ == state@,
        r.timeout_seconds == 300,
{
    coordinator.pending = Some(PendingCallback { expected_state: state.to_owned() });
    DeepLinkCallbackWaiter { expected_state: state.to_owned(), timeout_seconds: 300 }
}

/// Issues a fresh signed state token and registers a waiter for it. The
/// issued token validates on this device at any time within the 300-second
/// window around its timestamp, so the callback it binds can be accepted.
pub fn register_secure_waiter(coordinator: &mut CallbackCoordinator, machine_id: &str) -> (r: (
    String,
    DeepLinkCallbackWaiter,
))
    ensures
        final(coordinator).pending matches Some(p) && p.expected_state@ == r.0@,
        r.1.expected_state@ == r.0@,
        r.1.timeout_seconds == 300,
        exists|ts: i64, nonce: Seq<char>|
            {
                &&& #[trigger] state_token_of(machine_id@, ts as int, nonce) == r.0@
                &&& (forall|now: int|
                    -(STATE_VALIDITY_SECONDS as int) <= now - ts <= STATE_VALIDITY_SECONDS as int
                        ==> state_validation(r.0@, machine_id@, now) is Ok)
            },
{
    let state = generate_secure_state(machine_id);
    let waiter = register_waiter(coordinator, state.as_str());
    (state, waiter)
}

/// The last value among the pairs for this key, as a multi-valued query
/// collected into a map would keep it.
pub open spec fn lookup_param(params: Seq<(Seq<char>, Seq<char>)>, key: Seq<char>) -> Option<
    Seq<char>,
>
    decreases params.len(),
{
    if params.len() == 0 {
        None
    } else if params.last().0 == key {
        Some(params.last().1)
    } else {
        lookup_param(params.drop_last(), key)
    }
}

/// Finds the last value for this key among the decoded query pairs.
fn find_param(params: &Vec<(String, String)>, key: &str) -> (r: Option<String>)
    ensures
        match r {
            Some(v) => lookup_param(params.deep_view(), key@) == Some(v@),
            None => lookup_param(params.deep_view(), key@) is None,
        },
{
    let mut k: usize = params.len();
    proof {
        assert(params.deep_view().take(params@.len() as int) =~= params.deep_view());
    }
    while k > 0
        invariant
            0 <= k <= params@.len(),
            params.deep_view().len() == params@.len(),
            lookup_param(params.deep_view(), key@) == lookup_param(
                params.deep_view().take(k as int),
                key@,
            ),
            forall|i: int|
                0 <= i < params@.len() ==> #[trigger] params.deep_view()[i] == (
                params@[i].0@,
                params@[i].1@,
            ),
        decreases k,
    {
        k = k - 1;
        proof {
            let pre = params.deep_view().take(k + 1 as int);
            assert(pre.drop_last() =~= params.deep_view().take(k as int));
            assert(pre.last() == params.deep_view()[k as int]);
        }
        if str_eq(params[k].0.as_str(), key) {
            return Some(params[k].1.clone());
        }
    }
    proof {
        assert(params.deep_view().take(0) =~= Seq::<(Seq<char>, Seq<char>)>::empty());
    }
    None
}

/// The judgement the coordinator passes on one callback URL, given the
/// expected state, the device identifier and the current time.
pub enum CallbackDecision {
    /// The text is not a URL at all.
    Unparseable,
    /// A URL of some other scheme: not ours, the slot stays armed.
    WrongScheme,
    /// The provider reported an error parameter.
    ProviderError { error: Seq<char>, description: Seq<char> },
    /// No `code` parameter.
    MissingCode,
    /// No `state` parameter.
    MissingState,
    /// The echoed state differs from the registered one.
    StateMismatched,
    /// The state matched but its signature or timestamp did not validate.
    BadState { reason: ValidationError },
    /// All checks passed.
    Accepted { code: Seq<char>, state: Seq<char> },
}

/// Decides a callback URL against the expected state at time `now`.
pub open spec fn decide_callback(
    url: Seq<char>,
    expected: Seq<char>,
    machine_id: Seq<char>,
    now: int,
) -> CallbackDecision {
    match parsed_url_of(url) {
        None => CallbackDecision::Unparseable,
        Some(parts) => if parts.0 != "kiro"@ {
            CallbackDecision::WrongScheme
        } else {
            match lookup_param(parts.1, "error"@) {
                Some(err) => CallbackDecision::ProviderError {
                    error: err,
                    description: match lookup_param(parts.1, "error_description"@) {
                        Some(d) => d,
                        None => "Unknown error"@,
                    },
                },
                None => match lookup_param(parts.1, "code"@) {
                    None => CallbackDecision::MissingCode,
                    Some(code) => match lookup_param(parts.1, "state"@) {
                        None => CallbackDecision::MissingState,
                        Some(st) => if st != expected {
                            CallbackDecision::StateMismatched
                        } else {
                            match state_validation(st, machine_id, now) {
                                Err(ve) => CallbackDecision::BadState { reason: ve },
                                Ok(_) => CallbackDecision::Accepted { code, state: st },
                            }
                        },
                    },
                },
            }
        },
    }
}

/// The reported outcome matches the decision on this URL.
pub open spec fn outcome_matches(
    d: CallbackDecision,
    outcome: Option<Result<OAuthCallbackResult, CallbackError>>,
) -> bool {
    match d {
        CallbackDecision::Unparseable => outcome matches Some(Err(e)) && e is InvalidUrl,
        CallbackDecision::WrongScheme => outcome is None,
        CallbackDecision::ProviderError { error, description } => outcome matches Some(Err(e))
            && e matches CallbackError::Provider { error: e2, description: d2 } && e2@ == error
            && d2@ == description,
        CallbackDecision::MissingCode => outcome matches Some(Err(e)) && e matches
            CallbackError::MissingParameter { name } && name@ == "code"@,
        CallbackDecision::MissingState => outcome matches Some(Err(e)) && e matches
            CallbackError::MissingParameter { name } && name@ == "state"@,
        CallbackDecision::StateMismatched => outcome matches Some(Err(e))
            && e is StateMismatch,
        CallbackDecision::BadState { reason } => outcome matches Some(Err(e)) && e matches
            CallbackError::InvalidState { reason: re } && re == reason,
        CallbackDecision::Accepted { code, state } => outcome matches Some(Ok(res)) && res.code@
            == code && res.state@ == state,
    }
}

/// Handles one inbound deep-link URL against the pending slot. Returns
/// whether the URL was handled as ours, and the outcome to deliver to the
/// waiter, if any. The slot is consumed by every definite outcome, put back
/// when the URL belongs to another scheme, and untouched when nothing is
/// pending.
pub fn handle_deep_link(
    coordinator: &mut CallbackCoordinator,
    url: &str,
    machine_id: &str,
    now: i64,
) -> (r: (bool, Option<Result<OAuthCallbackResult, CallbackError>>))
    ensures
        old(coordinator).pending is None ==> r.0 == false && r.1 is None
            && final(coordinator).pending is None,
        old(coordinator).pending matches Some(p) ==> {
            let d = decide_callback(url@, p.expected_state@, machine_id@, now as int);
            &&& outcome_matches(d, r.1)
            &&& r.0 == !(d is WrongScheme || d is Unparseable)
            &&& (d is WrongScheme ==> (final(coordinator).pending matches Some(q)
                && q.expected_state@ == p.expected_state@))
            &&& (!(d is WrongScheme) ==> final(coordinator).pending is None)
        },
{
    let pending = coordinator.pending.take();
    let expected = match pending {
        Some(p) => p.expected_state,
        None => { return (false, None); },
    };
    let parts = match parse_url_parts(url) {
        Some(parts) => parts,
        None => { return (false, Some(Err(CallbackError::InvalidUrl))); },
    };
    let (scheme, params) = parts;
    if !str_eq(scheme.as_str(), "kiro") {
        coordinator.pending = Some(PendingCallback { expected_state: expected });
        return (false, None);
    }
    match find_param(&params, "error") {
        Some(err) => {
            let description = match find_param(&params, "error_description") {
                Some(d) => d,
                None => "Unknown error".to_owned(),
            };
            return (true, Some(Err(CallbackError::Provider { error: err, description })));
        },
        None => {},
    }
    let code = match find_param(&params, "code") {
        Some(c) => c,
        None => {
            return (
                true,
                Some(Err(CallbackError::MissingParameter { name: "code".to_owned() })),
            );
        },
    };
    let state = match find_param(&params, "state") {
        Some(s) => s,
        None => {
            return (
                true,
                Some(Err(CallbackError::MissingParameter { name: "state".to_owned() })),
            );
        },
    };
    if !str_eq(state.as_str(), expected.as_str()) {
        return (true, Some(Err(CallbackError::StateMismatch)));
    }
    match validate_state_signature(state.as_str(), machine_id, now) {
        Err(ve) => (true, Some(Err(CallbackError::InvalidState { reason: ve }))),
        Ok(_) => (true, Some(Ok(OAuthCallbackResult { code, state }))),
    }
}

} // verus!
