//! Credentials of the bot's chat account.
use vstd::prelude::*;

verus! {

/// The tokens and identity that the chat connection is opened with.
pub struct Config {
    pub access_token: String,
    pub refresh_token: String,
    pub client_id: String,
    pub client_secret: String,
    pub nick: String,
}

} // verus!
