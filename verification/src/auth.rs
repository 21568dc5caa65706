//! Sign-in address rules for hosted pages.
//!
//! A hosted page may open provider sign-in pages in a popup of their own;
//! any other new window stays inside the hosted surface. An address counts
//! as a sign-in address when it names a known provider domain or a common
//! sign-in path.

use vstd::prelude::*;
use crate::text;

verus! {

/// Whether an address belongs to a sign-in flow: it contains one of the
/// known provider domains or one of the common sign-in path fragments.
pub open spec fn is_auth_url_spec(u: Seq<char>) -> bool {
    ||| text::contains_spec(u, "accounts.google.com"@)
    ||| text::contains_spec(u, "login.microsoftonline.com"@)
    ||| text::contains_spec(u, "github.com/login"@)
    ||| text::contains_spec(u, "appleid.apple.com"@)
    ||| text::contains_spec(u, "facebook.com"@)
    ||| text::contains_spec(u, "twitter.com"@)
    ||| text::contains_spec(u, "auth0.com"@)
    ||| text::contains_spec(u, "/oauth/"@)
    ||| text::contains_spec(u, "/auth/"@)
    ||| text::contains_spec(u, "/authorize"@)
    ||| text::contains_spec(u, "/login"@)
    ||| text::contains_spec(u, "/signin"@)
    ||| text::contains_spec(u, "/o/oauth2"@)
}

/// Whether an address belongs to a sign-in flow.
pub fn is_auth_url(url: &str) -> (r: bool)
    ensures
        r == is_auth_url_spec(url@),
{
    text::str_contains(url, "accounts.google.com") || text::str_contains(
        url,
        "login.microsoftonline.com",
    ) || text::str_contains(url, "github.com/login") || text::str_contains(
        url,
        "appleid.apple.com",
    ) || text::str_contains(url, "facebook.com") || text::str_contains(url, "twitter.com")
        || text::str_contains(url, "auth0.com") || text::str_contains(url, "/oauth/")
        || text::str_contains(url, "/auth/") || text::str_contains(url, "/authorize")
        || text::str_contains(url, "/login") || text::str_contains(url, "/signin")
        || text::str_contains(url, "/o/oauth2")
}

/// Whether a hosted page's request for a new window is allowed to leave
/// the surface: sign-in addresses get their own popup instead.
pub fn should_allow_new_window(url: &str) -> (r: bool)
    ensures
        r == !is_auth_url_spec(url@),
{
    !is_auth_url(url)
}

} // verus!
