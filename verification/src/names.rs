//! The names under which secrets are kept in the credential store.
use vstd::prelude::*;
use vstd::string::StringExecFns;
use crate::text::{decimal, decimal_string};

verus! {

/// The service that every credential entry of the switcher belongs to.
pub const KEYRING_SERVICE: &'static str = "codex-switcher";

/// The field names of the three tokens, as they appear in chunk entry names.
pub const ID_TOKEN_FIELD: &'static str = "id-token";
pub const ACCESS_TOKEN_FIELD: &'static str = "access-token";
pub const REFRESH_TOKEN_FIELD: &'static str = "refresh-token";

/// The entry that holds an account's API key.
pub open spec fn api_key_entry(account_id: Seq<char>) -> Seq<char> {
    "api-key:"@ + account_id
}

/// The entry that holds an account's ChatGPT manifest (or, in earlier versions, its tokens).
pub open spec fn chatgpt_manifest_entry(account_id: Seq<char>) -> Seq<char> {
    "chatgpt:"@ + account_id
}

/// The entry that holds one chunk of one token of one generation.
pub open spec fn chatgpt_token_entry(account_id: Seq<char>, generation: Seq<char>, field: Seq<char>,
    chunk_index: u16) -> Seq<char> {
    "chatgpt:"@ + account_id + ":"@ + generation + ":"@ + field + ":"@ + decimal(chunk_index as nat)
}

pub fn api_key_entry_name(account_id: &str) -> (name: String)
    ensures
        name@ == api_key_entry(account_id@),
{
    let name = String::from_str("api-key:");
    name.concat(account_id)
}

pub fn chatgpt_manifest_entry_name(account_id: &str) -> (name: String)
    ensures
        name@ == chatgpt_manifest_entry(account_id@),
{
    let name = String::from_str("chatgpt:");
    name.concat(account_id)
}

pub fn chatgpt_token_entry_name(account_id: &str, generation: &str, field: &str, chunk_index: u16) -> (name: String)
    ensures
        name@ == chatgpt_token_entry(account_id@, generation@, field@, chunk_index),
{
    let mut name = String::from_str("chatgpt:");
    name.append(account_id);
    name.append(":");
    name.append(generation);
    name.append(":");
    name.append(field);
    name.append(":");
    name.append(decimal_string(chunk_index as u64).as_str());
    name
}

} // verus!
