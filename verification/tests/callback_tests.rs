use kiro_vault::callback::{
    handle_deep_link, register_secure_waiter, register_waiter, CallbackCoordinator,
    DeepLinkCallbackWaiter,
};
use kiro_vault::errors::CallbackError;

fn now() -> i64 {
    chrono::Utc::now().timestamp()
}

#[test]
fn redirect_uri_is_the_fixed_deep_link() {
    assert_eq!(
        DeepLinkCallbackWaiter::get_redirect_uri(),
        "kiro://kiro.kiroAgent/authenticate-success"
    );
}

#[test]
fn register_waiter_arms_the_slot() {
    let mut coordinator = CallbackCoordinator::new();
    let waiter = register_waiter(&mut coordinator, "tok");
    assert_eq!(waiter.expected_state, "tok");
    assert_eq!(waiter.timeout_seconds, 300);
    assert_eq!(coordinator.pending.as_ref().unwrap().expected_state, "tok");
}

#[test]
fn registering_again_replaces_the_slot() {
    let mut coordinator = CallbackCoordinator::new();
    register_waiter(&mut coordinator, "first");
    register_waiter(&mut coordinator, "second");
    assert_eq!(coordinator.pending.as_ref().unwrap().expected_state, "second");
}

#[test]
fn full_callback_round_trip_succeeds() {
    let machine_id = "cb-device";
    let mut coordinator = CallbackCoordinator::new();
    let (state, _waiter) = register_secure_waiter(&mut coordinator, machine_id);
    let url = format!(
        "kiro://kiro.kiroAgent/authenticate-success?code=auth-code-1&state={}",
        state
    );
    let (handled, outcome) = handle_deep_link(&mut coordinator, &url, machine_id, now());
    assert!(handled);
    let result = outcome.unwrap().unwrap();
    assert_eq!(result.code, "auth-code-1");
    assert_eq!(result.state, state);
    assert!(coordinator.pending.is_none());
}

#[test]
fn missing_code_yields_missing_parameter_and_consumes_slot() {
    let machine_id = "cb-device";
    let mut coordinator = CallbackCoordinator::new();
    register_waiter(&mut coordinator, "tok");
    let url = "kiro://kiro.kiroAgent/authenticate-success?state=tok";
    let (handled, outcome) = handle_deep_link(&mut coordinator, url, machine_id, now());
    assert!(handled);
    match outcome.unwrap() {
        Err(CallbackError::MissingParameter { name }) => assert_eq!(name, "code"),
        other => panic!("expected missing code, got {:?}", other),
    }
    assert!(coordinator.pending.is_none());
}

#[test]
fn missing_state_yields_missing_parameter_and_consumes_slot() {
    let machine_id = "cb-device";
    let mut coordinator = CallbackCoordinator::new();
    register_waiter(&mut coordinator, "tok");
    let url = "kiro://kiro.kiroAgent/authenticate-success?code=abc";
    let (handled, outcome) = handle_deep_link(&mut coordinator, url, machine_id, now());
    assert!(handled);
    match outcome.unwrap() {
        Err(CallbackError::MissingParameter { name }) => assert_eq!(name, "state"),
        other => panic!("expected missing state, got {:?}", other),
    }
    assert!(coordinator.pending.is_none());
}

#[test]
fn mismatched_state_is_rejected_without_matching() {
    let machine_id = "cb-device";
    let mut coordinator = CallbackCoordinator::new();
    register_waiter(&mut coordinator, "expected-token");
    let url = "kiro://kiro.kiroAgent/authenticate-success?code=abc&state=другой";
    let (handled, outcome) = handle_deep_link(&mut coordinator, url, machine_id, now());
    assert!(handled);
    match outcome.unwrap() {
        Err(CallbackError::StateMismatch) => {}
        other => panic!("expected state mismatch, got {:?}", other),
    }
    assert!(coordinator.pending.is_none());
}

#[test]
fn matching_but_unsigned_state_is_rejected() {
    let machine_id = "cb-device";
    let mut coordinator = CallbackCoordinator::new();
    register_waiter(&mut coordinator, "plain-token-without-signature");
    let url =
        "kiro://kiro.kiroAgent/authenticate-success?code=abc&state=plain-token-without-signature";
    let (handled, outcome) = handle_deep_link(&mut coordinator, url, machine_id, now());
    assert!(handled);
    match outcome.unwrap() {
        Err(CallbackError::InvalidState { .. }) => {}
        other => panic!("expected invalid state, got {:?}", other),
    }
}

#[test]
fn provider_error_is_reported_with_description() {
    let machine_id = "cb-device";
    let mut coordinator = CallbackCoordinator::new();
    register_waiter(&mut coordinator, "tok");
    let url = "kiro://kiro.kiroAgent/authenticate-success?error=access_denied&error_description=user%20said%20no";
    let (handled, outcome) = handle_deep_link(&mut coordinator, url, machine_id, now());
    assert!(handled);
    match outcome.unwrap() {
        Err(CallbackError::Provider { error, description }) => {
            assert_eq!(error, "access_denied");
            assert_eq!(description, "user said no");
        }
        other => panic!("expected provider error, got {:?}", other),
    }
}

#[test]
fn foreign_scheme_keeps_the_slot_armed() {
    let machine_id = "cb-device";
    let mut coordinator = CallbackCoordinator::new();
    let (state, _waiter) = register_secure_waiter(&mut coordinator, machine_id);
    let (handled, outcome) =
        handle_deep_link(&mut coordinator, "https://example.com/?code=x", machine_id, now());
    assert!(!handled);
    assert!(outcome.is_none());
    assert!(coordinator.pending.is_some());

    // the slot still works afterwards
    let url = format!("kiro://kiro.kiroAgent/authenticate-success?code=late&state={}", state);
    let (handled2, outcome2) = handle_deep_link(&mut coordinator, &url, machine_id, now());
    assert!(handled2);
    assert!(outcome2.unwrap().is_ok());
}

#[test]
fn unparseable_url_reports_invalid_url() {
    let machine_id = "cb-device";
    let mut coordinator = CallbackCoordinator::new();
    register_waiter(&mut coordinator, "tok");
    let (handled, outcome) = handle_deep_link(&mut coordinator, "not a url", machine_id, now());
    assert!(!handled);
    match outcome.unwrap() {
        Err(CallbackError::InvalidUrl) => {}
        other => panic!("expected invalid url, got {:?}", other),
    }
}

#[test]
fn nothing_pending_means_nothing_handled() {
    let mut coordinator = CallbackCoordinator::new();
    let (handled, outcome) =
        handle_deep_link(&mut coordinator, "kiro://x/y?code=a&state=b", "cb-device", now());
    assert!(!handled);
    assert!(outcome.is_none());
}
