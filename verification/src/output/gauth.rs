//! How the sync signs in to the remote services.

use vstd::prelude::*;

verus! {

/// A way to sign in.
#[derive(Debug, Clone, Copy, PartialEq, Eq, Structural)]
pub enum AuthKind {
    /// As a user, who grants access in a browser.
    OAuthUser,
    /// As a service account, with its key.
    ServiceAccount,
}

/// The way to sign in that was asked for.
#[derive(Debug, Clone, Copy, PartialEq, Eq, Structural)]
pub enum AuthType {
    OAuth,
    ServiceAccount,
    /// The way that suits the remote service.
    Infer,
}

/// The way to sign in, settled once before any sign-in: the way asked for,
/// or, where none was, the way that suits the remote service.
pub fn auth_kind(requested: AuthType, inferred: AuthKind) -> (r: AuthKind)
    ensures
        r == match requested {
            AuthType::OAuth => AuthKind::OAuthUser,
            AuthType::ServiceAccount => AuthKind::ServiceAccount,
            AuthType::Infer => inferred,
        },
{
    match requested {
        AuthType::OAuth => AuthKind::OAuthUser,
        AuthType::ServiceAccount => AuthKind::ServiceAccount,
        AuthType::Infer => inferred,
    }
}

} // verus!
