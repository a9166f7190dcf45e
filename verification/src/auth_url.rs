//! Construction of the hosted login URL for the authentication service.

use vstd::prelude::*;

use crate::primitives::urlencode;
use crate::primitives::urlencoded_of;

verus! {

/// The login URL for a provider: the hosted endpoint with the identity
/// provider, the percent-encoded redirect URI, the PKCE challenge and the
/// anti-CSRF state as query parameters.
pub open spec fn login_url_of(
    provider: Seq<char>,
    redirect_uri: Seq<char>,
    code_challenge: Seq<char>,
    state: Seq<char>,
) -> Seq<char> {
    "https://prod.us-east-1.auth.desktop.kiro.dev/login?idp="@ + provider + "&redirect_uri="@
        + urlencoded_of(redirect_uri) + "&code_challenge="@ + code_challenge
        + "&code_challenge_method=S256&state="@ + state
}

/// Builds the login URL handed to the browser.
pub fn build_login_url(
    provider: &str,
    redirect_uri: &str,
    code_challenge: &str,
    state: &str,
) -> (r: String)
    ensures
        r@ == login_url_of(provider@, redirect_uri@, code_challenge@, state@),
{
    let mut url = "https://prod.us-east-1.auth.desktop.kiro.dev/login?idp=".to_owned();
    url.append(provider);
    url.append("&redirect_uri=");
    let encoded = urlencode(redirect_uri);
    url.append(encoded.as_str());
    url.append("&code_challenge=");
    url.append(code_challenge);
    url.append("&code_challenge_method=S256&state=");
    url.append(state);
    url
}

} // verus!
