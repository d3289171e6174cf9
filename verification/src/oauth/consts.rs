//! Provider endpoints and the scope capabilities a client may request.

use vstd::prelude::*;

verus! {

/// Endpoint of leg 1: the request-token exchange.
pub const OAUTH_URL_REQUEST_TOKEN: &'static str = "https://www.hatena.com/oauth/initiate";

/// Endpoint of leg 2: the page on which the user grants permission.
pub const OAUTH_URL_GRANT_PERMISSION: &'static str = "https://www.hatena.com/oauth/authorize";

/// Endpoint of leg 3: the access-token exchange.
pub const OAUTH_URL_ACCESS_TOKEN: &'static str = "https://www.hatena.com/oauth/token";

/// A capability that an access token may be granted.
#[derive(Clone, Copy, PartialEq, Eq, Structural, Debug)]
pub enum OauthScope {
    ReadPublic,
    ReadPrivate,
    WritePublic,
    WritePrivate,
}

/// The scope's name on the wire.
pub open spec fn scope_name(s: OauthScope) -> Seq<char> {
    match s {
        OauthScope::ReadPublic => "read_public"@,
        OauthScope::ReadPrivate => "read_private"@,
        OauthScope::WritePublic => "write_public"@,
        OauthScope::WritePrivate => "write_private"@,
    }
}

impl OauthScope {
    /// The scope's name on the wire.
    pub fn name(&self) -> (r: &'static str)
        ensures
            r@ == scope_name(*self),
    {
        match self {
            OauthScope::ReadPublic => "read_public",
            OauthScope::ReadPrivate => "read_private",
            OauthScope::WritePublic => "write_public",
            OauthScope::WritePrivate => "write_private",
        }
    }
}

} // verus!
