//! Settings read at start-up.
use vstd::prelude::*;

verus! {

/// The tokens and identity that the bot signs in with.
pub struct Settings {
    pub access_token: String,
    pub refresh_token: String,
    pub client_id: String,
    pub client_secret: String,
    pub nick: String,
}

} // verus!
