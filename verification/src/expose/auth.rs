//! The credentials a session authenticates with.

use vstd::prelude::*;
use crate::expose::types::{AuthConfig, AuthModel};

verus! {

/// The credentials handed to the SSH client.
#[derive(Debug, Clone)]
pub enum RuntimeAuth {
    Password(String),
    PrivateKeyFile(String),
}

impl View for RuntimeAuth {
    type V = AuthModel;

    open spec fn view(&self) -> AuthModel {
        match self {
            RuntimeAuth::Password(p) => AuthModel::Password(p@),
            RuntimeAuth::PrivateKeyFile(k) => AuthModel::PrivateKey(k@),
        }
    }
}

/// The credentials for a configured authentication: the same password, or
/// the same key file.
pub fn build_auth(auth: &AuthConfig) -> (r: RuntimeAuth)
    ensures
        r@ == auth@,
{
    match auth {
        AuthConfig::Password(password) => RuntimeAuth::Password(password.clone()),
        AuthConfig::PrivateKey(path) => RuntimeAuth::PrivateKeyFile(path.clone()),
    }
}

} // verus!
