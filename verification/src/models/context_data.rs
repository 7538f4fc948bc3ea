use vstd::prelude::*;

verus! {

/// The OAuth2 client identifiers this deployment accepts, per provider.
#[derive(Debug, Clone, PartialEq, Eq)]
pub struct OAuth2ClientIds {
    pub google: GoogleOAuthClientIds,
}

/// Google issues one client identifier per platform.
#[derive(Debug, Clone, PartialEq, Eq)]
pub struct GoogleOAuthClientIds {
    pub android: String,
    pub ios: String,
}

} // verus!
