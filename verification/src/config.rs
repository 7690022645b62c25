//! Configuration values loaded once at startup and immutable for the
//! process lifetime: relay endpoints, key material, and the bot's display
//! metadata. Parsing them from disk is the surrounding program's job; the
//! engine only carries the values.

use vstd::prelude::*;

verus! {

/// Relay-network settings: the bot's secret key and the relays to join.
pub struct NostrConfig {
    pub secretkey: String,
    pub relays: Vec<String>,
}

/// The bot's public display metadata.
pub struct NostrMetadata {
    pub name: String,
    pub display_name: String,
    pub about: String,
    pub website: String,
    pub picture: String,
    pub nip05: String,
    pub lud06: String,
}

/// The whole configuration surface.
pub struct Config {
    pub nostr: NostrConfig,
    pub metadata: NostrMetadata,
}

} // verus!
