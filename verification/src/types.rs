//! The records that the account store holds.
use vstd::prelude::*;
use crate::platform::{is_hyphenated_uuid, new_uuid, now};

verus! {

/// A point in time: whole seconds since the Unix epoch and the nanoseconds past them.
#[derive(Clone, Copy, Debug, PartialEq, Eq, Structural)]
pub struct Timestamp {
    pub seconds: i64,
    pub nanos: u32,
}

/// The OAuth tokens of a ChatGPT sign-in.
#[derive(Clone, Debug)]
pub struct TokenData {
    pub id_token: String,
    pub access_token: String,
    pub refresh_token: String,
    pub account_id: Option<String>,
}

/// The credentials of an account: an API key or ChatGPT OAuth tokens.
#[derive(Clone, Debug)]
pub enum AuthData {
    ApiKey { key: String },
    ChatGPT {
        id_token: String,
        access_token: String,
        refresh_token: String,
        account_id: Option<String>,
    },
}

/// One account as the switcher keeps it.
#[derive(Clone, Debug)]
pub struct StoredAccount {
    pub id: String,
    pub name: String,
    pub email: Option<String>,
    pub plan_type: Option<String>,
    pub subscription_expires_at: Option<Timestamp>,
    pub auth_data: AuthData,
    pub created_at: Timestamp,
    pub last_used_at: Option<Timestamp>,
}

/// All accounts, which one is active, and which ones are masked in the interface.
#[derive(Clone, Debug)]
pub struct AccountsStore {
    pub version: u32,
    pub accounts: Vec<StoredAccount>,
    pub active_account_id: Option<String>,
    pub masked_account_ids: Vec<String>,
}

/// The contents of Codex's `auth.json`.
#[derive(Clone, Debug)]
pub struct AuthDotJson {
    pub openai_api_key: Option<String>,
    pub tokens: Option<TokenData>,
    pub last_refresh: Option<Timestamp>,
}

/// Why a storage operation failed.
#[derive(Debug)]
pub enum StorageError {
    /// The home directory could not be determined.
    HomeDirectoryMissing,
    /// The credential entry could not be opened.
    CredentialOpen { entry: String },
    /// The credential entry could not be read.
    CredentialRead { entry: String },
    /// The credential entry could not be written.
    CredentialWrite { entry: String },
    /// The credential entry could not be deleted.
    CredentialDelete { entry: String },
    /// A credential manifest of another version, or without an active generation.
    UnsupportedManifest { account_id: String },
    /// The stored ChatGPT record is neither a manifest nor legacy tokens.
    InvalidManifest { account_id: String },
    /// A manifest names no chunks, or more than allowed, for a token field.
    InvalidChunkCount { field: String, account_id: String },
    /// A token chunk that the manifest names is not in the credential store.
    MissingChunk { entry: String },
    /// A token splits into more chunks than a `u16` counts.
    TooManyChunks,
    /// A token splits into more chunks than the store allows.
    TokenTooLarge,
    /// An API-key account has no key, in the file or in the credential store.
    ApiKeyMissing { account_id: String },
    /// A ChatGPT account has no tokens, in the file or in the credential store.
    ChatGptCredentialsMissing { account_id: String },
    /// Another account already has this name.
    DuplicateAccountName { name: String },
    /// No account has this id.
    AccountNotFound { account_id: String },
    /// OAuth tokens were given for an API-key account.
    NotChatGptAccount,
}

/// The content of an optional string.
pub open spec fn opt_view(o: Option<String>) -> Option<Seq<char>> {
    match o {
        Some(s) => Some(s@),
        None => None,
    }
}

/// Copies an optional string.
pub fn copy_opt(o: &Option<String>) -> (r: Option<String>)
    ensures
        r == *o,
{
    match o {
        Some(s) => Some(s.clone()),
        None => None,
    }
}

/// Compares two optional strings by content.
pub fn opt_eq(a: &Option<String>, b: &Option<String>) -> (r: bool)
    ensures
        r == (opt_view(*a) == opt_view(*b)),
{
    match (a, b) {
        (Some(x), Some(y)) => *x == *y,
        (None, None) => true,
        _ => false,
    }
}

/// Copies a list of strings.
pub fn copy_strings(v: &Vec<String>) -> (r: Vec<String>)
    ensures
        r@ == v@,
{
    let mut r: Vec<String> = Vec::new();
    for i in 0..v.len()
        invariant
            r@ == v@.take(i as int),
    {
        r.push(v[i].clone());
        assert(r@ =~= v@.take(i + 1));
    }
    assert(v@.take(v.len() as int) =~= v@);
    r
}

impl TokenData {
    /// A copy of these tokens.
    pub fn copy(&self) -> (r: Self)
        ensures
            r == *self,
    {
        TokenData {
            id_token: self.id_token.clone(),
            access_token: self.access_token.clone(),
            refresh_token: self.refresh_token.clone(),
            account_id: copy_opt(&self.account_id),
        }
    }
}

impl AuthData {
    /// A copy of these credentials.
    pub fn copy(&self) -> (r: Self)
        ensures
            r == *self,
    {
        match self {
            AuthData::ApiKey { key } => AuthData::ApiKey { key: key.clone() },
            AuthData::ChatGPT { id_token, access_token, refresh_token, account_id } => {
                AuthData::ChatGPT {
                    id_token: id_token.clone(),
                    access_token: access_token.clone(),
                    refresh_token: refresh_token.clone(),
                    account_id: copy_opt(account_id),
                }
            },
        }
    }
}

impl StoredAccount {
    /// A copy of this account.
    pub fn copy(&self) -> (r: Self)
        ensures
            r == *self,
    {
        StoredAccount {
            id: self.id.clone(),
            name: self.name.clone(),
            email: copy_opt(&self.email),
            plan_type: copy_opt(&self.plan_type),
            subscription_expires_at: self.subscription_expires_at,
            auth_data: self.auth_data.copy(),
            created_at: self.created_at,
            last_used_at: self.last_used_at,
        }
    }
}

impl StoredAccount {
    /// A new ChatGPT account with a fresh random id, created now and never used yet.
    pub fn new_chatgpt(name: String, email: Option<String>, plan_type: Option<String>,
        subscription_expires_at: Option<Timestamp>, id_token: String, access_token: String,
        refresh_token: String, account_id: Option<String>) -> (a: Self)
        ensures
            is_hyphenated_uuid(a.id@),
            a.name == name,
            a.email == email,
            a.plan_type == plan_type,
            a.subscription_expires_at == subscription_expires_at,
            a.auth_data == (AuthData::ChatGPT { id_token, access_token, refresh_token, account_id }),
            a.last_used_at is None,
    {
        StoredAccount {
            id: new_uuid(),
            name,
            email,
            plan_type,
            subscription_expires_at,
            auth_data: AuthData::ChatGPT { id_token, access_token, refresh_token, account_id },
            created_at: now(),
            last_used_at: None,
        }
    }

    /// A new API-key account with a fresh random id, created now and never used yet.
    pub fn new_api_key(name: String, api_key: String) -> (a: Self)
        ensures
            is_hyphenated_uuid(a.id@),
            a.name == name,
            a.email is None,
            a.plan_type is None,
            a.subscription_expires_at is None,
            a.auth_data == (AuthData::ApiKey { key: api_key }),
            a.last_used_at is None,
    {
        StoredAccount {
            id: new_uuid(),
            name,
            email: None,
            plan_type: None,
            subscription_expires_at: None,
            auth_data: AuthData::ApiKey { key: api_key },
            created_at: now(),
            last_used_at: None,
        }
    }
}

/// Copies a list of accounts.
pub fn copy_accounts(v: &Vec<StoredAccount>) -> (r: Vec<StoredAccount>)
    ensures
        r@ == v@,
{
    let mut r: Vec<StoredAccount> = Vec::new();
    for i in 0..v.len()
        invariant
            r@ == v@.take(i as int),
    {
        r.push(v[i].copy());
        assert(r@ =~= v@.take(i + 1));
    }
    assert(v@.take(v.len() as int) =~= v@);
    r
}

impl AccountsStore {
    /// A copy of this store.
    pub fn copy(&self) -> (r: Self)
        ensures
            r.version == self.version,
            r.accounts@ == self.accounts@,
            r.active_account_id == self.active_account_id,
            r.masked_account_ids@ == self.masked_account_ids@,
    {
        AccountsStore {
            version: self.version,
            accounts: copy_accounts(&self.accounts),
            active_account_id: copy_opt(&self.active_account_id),
            masked_account_ids: copy_strings(&self.masked_account_ids),
        }
    }
}

impl Default for AccountsStore {
    /// An empty store of the current format version, with no active account.
    fn default() -> (r: Self)
        ensures
            r.version == 1,
            r.accounts@.len() == 0,
            r.active_account_id is None,
            r.masked_account_ids@.len() == 0,
    {
        AccountsStore {
            version: 1,
            accounts: Vec::new(),
            active_account_id: None,
            masked_account_ids: Vec::new(),
        }
    }
}

} // verus!
