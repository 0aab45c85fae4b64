use vstd::prelude::*;

verus! {

/// Credentials of one configured identity.
pub struct Account {
    pub username: String,
    pub password: String,
}

/// The accounts to run, in the order in which they are configured.
pub struct Config {
    pub account: Vec<Account>,
}

} // verus!
