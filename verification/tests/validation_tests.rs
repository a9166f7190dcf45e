use kiro_vault::auth_url::build_login_url;
use kiro_vault::constants::{
    PROVIDER_BUILDER_ID, PROVIDER_GITHUB, PROVIDER_GOOGLE,
};
use kiro_vault::steering::SteeringManager;
use kiro_vault::validation::{validate_email, validate_provider, validate_token};

#[test]
fn test_validate_email() {
    assert!(validate_email("test@example.com").is_ok());
    assert!(validate_email("user@kiro.dev").is_ok());
    assert!(validate_email("invalid@").is_err());
    assert!(validate_email("@example.com").is_err());
    assert!(validate_email("").is_err());
}

#[test]
fn test_validate_provider() {
    assert!(validate_provider(PROVIDER_GOOGLE).is_ok());
    assert!(validate_provider(PROVIDER_GITHUB).is_ok());
    assert!(validate_provider(PROVIDER_BUILDER_ID).is_ok());
    assert!(validate_provider("Unknown").is_err());
}

#[test]
fn test_validate_token() {
    assert!(validate_token("aor-1234567890abcdefghij", "RefreshToken").is_ok());
    assert!(validate_token("short", "AccessToken").is_err());
    assert!(validate_token("", "RefreshToken").is_err());
}

#[test]
fn email_length_boundary_is_254_bytes() {
    let local = "a".repeat(242);
    let ok = format!("{}@example.com", local);
    assert_eq!(ok.len(), 254);
    assert!(validate_email(&ok).is_ok());
    let too_long = format!("a{}@example.com", local);
    assert_eq!(too_long.len(), 255);
    match validate_email(&too_long) {
        Err(m) => assert_eq!(m, "邮箱长度超过限制"),
        Ok(()) => panic!("overlong email must be rejected"),
    }
}

#[test]
fn email_shape_edges() {
    assert!(validate_email("a@b.co").is_ok());
    assert!(validate_email("a.b+c_d%e-f@sub.domain-x.org").is_ok());
    assert!(validate_email("a@b.c").is_err()); // one-letter top-level domain
    assert!(validate_email("a@b.c3").is_err()); // digit in top-level domain
    assert!(validate_email("two@@at.com").is_err());
    assert!(validate_email("no-at.example.com").is_err());
    assert!(validate_email("sp ace@example.com").is_err());
}

#[test]
fn token_length_bounds_are_bytes() {
    assert!(validate_token(&"t".repeat(20), "AccessToken").is_ok());
    assert!(validate_token(&"t".repeat(19), "AccessToken").is_err());
    assert!(validate_token(&"t".repeat(10000), "AccessToken").is_ok());
    assert!(validate_token(&"t".repeat(10001), "AccessToken").is_err());
}

#[test]
fn provider_error_names_the_provider() {
    match validate_provider("Nobody") {
        Err(m) => assert_eq!(m, "不支持的 provider: Nobody"),
        Ok(()) => panic!("unknown provider must be rejected"),
    }
}

#[test]
fn steering_file_names_are_guarded() {
    assert!(SteeringManager::validate_file_name("notes.md").is_ok());
    assert!(SteeringManager::validate_file_name("a.b.md").is_ok());
    assert!(SteeringManager::validate_file_name("").is_err());
    assert!(SteeringManager::validate_file_name("/etc/passwd.md").is_err());
    assert!(SteeringManager::validate_file_name("..").is_err());
    assert!(SteeringManager::validate_file_name("dir/notes.md").is_err());
    assert!(SteeringManager::validate_file_name("dir\\notes.md").is_err());
    assert!(SteeringManager::validate_file_name("C:notes.md").is_err());
    assert!(SteeringManager::validate_file_name("notes.txt").is_err());
    assert!(SteeringManager::validate_file_name(".md").is_err());
}

#[test]
fn login_url_percent_encodes_the_redirect() {
    let url = build_login_url(
        "Google",
        "kiro://kiro.kiroAgent/authenticate-success",
        "challenge123",
        "state456",
    );
    let expected = format!(
        "https://prod.us-east-1.auth.desktop.kiro.dev/login?idp=Google&redirect_uri={}&code_challenge=challenge123&code_challenge_method=S256&state=state456",
        urlencoding::encode("kiro://kiro.kiroAgent/authenticate-success")
    );
    assert_eq!(url, expected);
}
