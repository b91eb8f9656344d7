//! Account and credential storage for the Codex account switcher.
//!
//! Accounts are kept in an `AccountsStore`; their secrets (API keys and
//! ChatGPT OAuth tokens) live in the operating system's credential store,
//! never in the accounts file on disk.

pub mod text;
pub mod types;
pub mod json;
pub mod manifest;
pub mod chunks;
pub mod names;
pub mod keyring_store;
pub mod platform;
pub mod claims;
pub mod generations;
pub mod credentials;
pub mod store;
pub mod disk;
pub mod paths;
pub mod json_items;
