//! Operations on the account store: switching tokens in, adding, removing,
//! activating, finding and updating accounts.
use vstd::prelude::*;
use vstd::string::StringExecFns;
use crate::types::{AccountsStore, AuthData, AuthDotJson, StoredAccount, StorageError, Timestamp, TokenData,
    copy_opt, opt_eq, opt_view, copy_strings};
use crate::claims::{claims_account_id, parse_chatgpt_id_token_claims};

verus! {

/// `i` is the first account with this id.
pub open spec fn is_first_index(accounts: Seq<StoredAccount>, id: Seq<char>, i: int) -> bool {
    &&& 0 <= i < accounts.len()
    &&& accounts[i].id@ == id
    &&& forall|j: int| 0 <= j < i ==> (#[trigger] accounts[j]).id@ != id
}

/// No account has this id.
pub open spec fn no_account_with_id(accounts: Seq<StoredAccount>, id: Seq<char>) -> bool {
    forall|j: int| 0 <= j < accounts.len() ==> (#[trigger] accounts[j]).id@ != id
}

/// Two accounts that agree on everything but their credentials.
pub open spec fn same_metadata(a: StoredAccount, b: StoredAccount) -> bool {
    &&& a.id == b.id
    &&& a.name == b.name
    &&& a.email == b.email
    &&& a.plan_type == b.plan_type
    &&& a.subscription_expires_at == b.subscription_expires_at
    &&& a.created_at == b.created_at
    &&& a.last_used_at == b.last_used_at
}

/// The credentials are ChatGPT tokens with these contents.
pub open spec fn chatgpt_auth_is(a: AuthData, id_token: Seq<char>, access_token: Seq<char>,
    refresh_token: Seq<char>, account_id: Option<Seq<char>>) -> bool {
    match a {
        AuthData::ChatGPT { id_token: i, access_token: c, refresh_token: r, account_id: d } => {
            &&& i@ == id_token
            &&& c@ == access_token
            &&& r@ == refresh_token
            &&& opt_view(d) == account_id
        },
        AuthData::ApiKey { .. } => false,
    }
}

/// The ChatGPT account an id token belongs to: the one its claims name, else the one given beside it.
pub open spec fn token_identity(id_token: Seq<char>, fallback: Option<Seq<char>>) -> Option<Seq<char>> {
    match claims_account_id(id_token) {
        Some(a) => Some(a),
        None => fallback,
    }
}

/// Replacing the stored ChatGPT credentials of account `i` with the live `tokens`, which
/// belong to ChatGPT account `identity`, changes something.
pub open spec fn sync_applies(store: AccountsStore, auth: AuthDotJson, i: int, identity: Seq<char>) -> bool {
    &&& store.active_account_id is Some
    &&& auth.tokens is Some
    &&& is_first_index(store.accounts@, store.active_account_id->0@, i)
    &&& match store.accounts@[i].auth_data {
        AuthData::ChatGPT { id_token, access_token, refresh_token, account_id } => {
            let t = auth.tokens->0;
            &&& token_identity(id_token@, opt_view(account_id)) == Some(identity)
            &&& token_identity(t.id_token@, opt_view(t.account_id)) == Some(identity)
            &&& (id_token@ != t.id_token@ || access_token@ != t.access_token@
                || refresh_token@ != t.refresh_token@ || opt_view(account_id) != Some(identity))
        },
        AuthData::ApiKey { .. } => false,
    }
}

/// `after` is `before` with the live tokens of `auth`, which belong to ChatGPT account
/// `identity`, stored in account `i`, and nothing else changed.
pub open spec fn synced(before: AccountsStore, auth: AuthDotJson, i: int, identity: Seq<char>,
    after: AccountsStore) -> bool {
    let t = auth.tokens->0;
    &&& after.version == before.version
    &&& after.active_account_id == before.active_account_id
    &&& after.masked_account_ids == before.masked_account_ids
    &&& after.accounts@.len() == before.accounts@.len()
    &&& forall|j: int| 0 <= j < before.accounts@.len() && j != i
        ==> #[trigger] after.accounts@[j] == before.accounts@[j]
    &&& same_metadata(after.accounts@[i], before.accounts@[i])
    &&& chatgpt_auth_is(after.accounts@[i].auth_data, t.id_token@, t.access_token@, t.refresh_token@,
        Some(identity))
}

/// Syncing is idempotent: once the live tokens have been stored, the same tokens
/// change nothing more.
pub proof fn law_sync_is_idempotent(before: AccountsStore, auth: AuthDotJson, i: int, identity: Seq<char>,
    after: AccountsStore)
    requires
        sync_applies(before, auth, i, identity),
        synced(before, auth, i, identity, after),
    ensures
        forall|j: int, y: Seq<char>| !sync_applies(after, auth, j, y),
{
    let id = before.active_account_id->0@;
    assert forall|j: int, y: Seq<char>| !sync_applies(after, auth, j, y) by {
        if sync_applies(after, auth, j, y) {
            if j != i {
                if j < i {
                    assert(after.accounts@[j] == before.accounts@[j]);
                } else {
                    assert(after.accounts@[i].id == before.accounts@[i].id);
                }
            }
        }
    }
}

/// No two accounts share an id.
pub open spec fn ids_unique(accounts: Seq<StoredAccount>) -> bool {
    forall|a: int, b: int| 0 <= a < b < accounts.len() ==> (#[trigger] accounts[a]).id@ != (#[trigger] accounts[b]).id@
}

/// An id that some account has is found: there is a first account with it.
pub proof fn law_present_id_is_found(accounts: Seq<StoredAccount>, id: Seq<char>)
    requires
        !no_account_with_id(accounts, id),
    ensures
        exists|i: int| is_first_index(accounts, id, i),
    decreases accounts.len(),
{
    if accounts.last().id@ == id && no_account_with_id(accounts.drop_last(), id) {
        let i = accounts.len() - 1;
        assert(is_first_index(accounts, id, i)) by {
            assert forall|j: int| 0 <= j < i implies (#[trigger] accounts[j]).id@ != id by {
                assert(accounts[j] == accounts.drop_last()[j]);
            }
        }
    } else {
        let rest = accounts.drop_last();
        assert(!no_account_with_id(rest, id)) by {
            let k = choose|k: int| 0 <= k < accounts.len() && (#[trigger] accounts[k]).id@ == id;
            if k == accounts.len() - 1 {
                assert(!no_account_with_id(rest, id));
            } else {
                assert(rest[k] == accounts[k]);
            }
        }
        law_present_id_is_found(rest, id);
        let i = choose|i: int| is_first_index(rest, id, i);
        assert(is_first_index(accounts, id, i)) by {
            assert forall|j: int| 0 <= j < i implies (#[trigger] accounts[j]).id@ != id by {
                assert(accounts[j] == rest[j]);
            }
            assert(accounts[i] == rest[i]);
        }
    }
}

/// An account added to accounts that hold none with its id is the one its id finds.
pub proof fn law_added_account_is_found(accounts: Seq<StoredAccount>, account: StoredAccount)
    requires
        no_account_with_id(accounts, account.id@),
    ensures
        is_first_index(accounts.push(account), account.id@, accounts.len() as int),
{
    assert forall|j: int| 0 <= j < accounts.len() implies (#[trigger] accounts.push(account)[j]).id@ != account.id@ by {
        assert(accounts.push(account)[j] == accounts[j]);
    }
}

/// Where ids are unique, the account removed by its id can no longer be found by it.
pub proof fn law_removed_account_is_gone(accounts: Seq<StoredAccount>, id: Seq<char>, i: int)
    requires
        ids_unique(accounts),
        is_first_index(accounts, id, i),
    ensures
        no_account_with_id(accounts.remove(i), id),
{
    let rest = accounts.remove(i);
    assert forall|j: int| 0 <= j < rest.len() implies (#[trigger] rest[j]).id@ != id by {
        if j < i {
            assert(rest[j] == accounts[j]);
        } else {
            assert(rest[j] == accounts[j + 1]);
            assert(accounts[i].id@ != accounts[j + 1].id@);
        }
    }
}

/// The first account with an id is the only one that is first with it.
pub proof fn lemma_first_index_unique(accounts: Seq<StoredAccount>, id: Seq<char>, index: int)
    requires
        is_first_index(accounts, id, index),
    ensures
        forall|i: int| #[trigger] is_first_index(accounts, id, i) ==> i == index,
{
    assert forall|i: int| #[trigger] is_first_index(accounts, id, i) implies i == index by {
        if i < index { assert(accounts[i].id@ != id); }
        if i > index { assert(accounts[index].id@ != id); }
    }
}

/// Finds the first account with this id.
pub fn find_account_index(accounts: &Vec<StoredAccount>, id: &str) -> (r: Option<usize>)
    ensures
        match r {
            Some(i) => is_first_index(accounts@, id@, i as int),
            None => no_account_with_id(accounts@, id@),
        },
{
    for i in 0..accounts.len()
        invariant
            forall|j: int| 0 <= j < i ==> (#[trigger] accounts@[j]).id@ != id@,
    {
        if str_eq(accounts[i].id.as_str(), id) {
            return Some(i);
        }
    }
    None
}

/// The content of two strings is equal.
fn str_eq(a: &str, b: &str) -> (r: bool)
    ensures
        r == (a@ == b@),
{
    let x = String::from_str(a);
    let y = String::from_str(b);
    x == y
}

/// The ChatGPT account an id token belongs to: the one its claims name, else `fallback`.
fn identity_of(id_token: &str, fallback: &Option<String>) -> (r: Option<String>)
    ensures
        opt_view(r) == token_identity(id_token@, opt_view(*fallback)),
{
    match parse_chatgpt_id_token_claims(id_token).account_id {
        Some(account_id) => Some(account_id),
        None => copy_opt(fallback),
    }
}

/// Copies the live tokens of `auth.json` into the active account, when they belong to the
/// same ChatGPT account as the stored ones and differ from them. Tokens of an unknown or
/// another ChatGPT account are never stored. Tells whether the store changed.
pub fn sync_active_account_tokens(store: &mut AccountsStore, auth: &AuthDotJson) -> (changed: bool)
    ensures
        changed == exists|i: int, x: Seq<char>| sync_applies(*old(store), *auth, i, x),
        !changed ==> *final(store) == *old(store),
        changed ==> forall|i: int, x: Seq<char>| #[trigger] sync_applies(*old(store), *auth, i, x)
            ==> synced(*old(store), *auth, i, x, *final(store)),
{
    let ghost before = *store;
    let index = match &store.active_account_id {
        None => { return false; },
        Some(active_id) => match find_account_index(&store.accounts, active_id.as_str()) {
            Some(index) => index,
            None => {
                proof {
                    assert forall|i: int, x: Seq<char>| !sync_applies(before, *auth, i, x) by {
                        if 0 <= i < before.accounts@.len() {
                            assert(before.accounts@[i].id@ != active_id@);
                        }
                    }
                }
                return false;
            },
        },
    };
    let tokens = match &auth.tokens {
        Some(tokens) => tokens,
        None => { return false; },
    };
    let new_auth = match &store.accounts[index].auth_data {
        AuthData::ApiKey { .. } => {
            proof {
                assert forall|i: int, x: Seq<char>| !sync_applies(before, *auth, i, x) by {
                    if sync_applies(before, *auth, i, x) {
                        assert(i == index) by {
                            if i < index { assert(before.accounts@[i].id@ != before.active_account_id->0@); }
                            if i > index { assert(before.accounts@[index as int].id@ != before.active_account_id->0@); }
                        }
                    }
                }
            }
            return false;
        },
        AuthData::ChatGPT { id_token, access_token, refresh_token, account_id } => {
            let stored = identity_of(id_token.as_str(), account_id);
            let current = identity_of(tokens.id_token.as_str(), &tokens.account_id);
            let same_identity = match (&stored, &current) {
                (Some(s), Some(c)) => *s == *c,
                _ => false,
            };
            let unchanged = same_identity && *id_token == tokens.id_token && *access_token == tokens.access_token
                && *refresh_token == tokens.refresh_token && opt_eq(account_id, &current);
            if !same_identity || unchanged {
                proof {
                    assert forall|i: int, x: Seq<char>| !sync_applies(before, *auth, i, x) by {
                        if sync_applies(before, *auth, i, x) {
                            assert(i == index) by {
                                if i < index { assert(before.accounts@[i].id@ != before.active_account_id->0@); }
                                if i > index { assert(before.accounts@[index as int].id@ != before.active_account_id->0@); }
                            }
                        }
                    }
                }
                return false;
            }
            AuthData::ChatGPT {
                id_token: tokens.id_token.clone(),
                access_token: tokens.access_token.clone(),
                refresh_token: tokens.refresh_token.clone(),
                account_id: current,
            }
        },
    };
    let mut account = store.accounts[index].copy();
    account.auth_data = new_auth;
    store.accounts[index] = account;
    proof {
        let x = opt_view(match &store.accounts@[index as int].auth_data {
            AuthData::ChatGPT { account_id, .. } => *account_id,
            AuthData::ApiKey { .. } => None,
        })->0;
        assert(sync_applies(before, *auth, index as int, x));
        assert forall|i: int, y: Seq<char>| #[trigger] sync_applies(before, *auth, i, y) implies i == index && y == x by {
            if i < index { assert(before.accounts@[i].id@ != before.active_account_id->0@); }
            if i > index { assert(before.accounts@[index as int].id@ != before.active_account_id->0@); }
        }
    }
    true
}

/// Some account has this name.
pub open spec fn name_taken(accounts: Seq<StoredAccount>, name: Seq<char>) -> bool {
    exists|j: int| 0 <= j < accounts.len() && (#[trigger] accounts[j]).name@ == name
}

/// Some account other than `id` has this name.
pub open spec fn name_taken_by_other(accounts: Seq<StoredAccount>, id: Seq<char>, name: Seq<char>) -> bool {
    exists|j: int| 0 <= j < accounts.len() && (#[trigger] accounts[j]).id@ != id && accounts[j].name@ == name
}

fn name_in_use(accounts: &Vec<StoredAccount>, name: &str) -> (r: bool)
    ensures
        r == name_taken(accounts@, name@),
{
    for i in 0..accounts.len()
        invariant
            forall|j: int| 0 <= j < i ==> (#[trigger] accounts@[j]).name@ != name@,
    {
        if str_eq(accounts[i].name.as_str(), name) {
            return true;
        }
    }
    false
}

fn name_in_use_by_other(accounts: &Vec<StoredAccount>, id: &str, name: &str) -> (r: bool)
    ensures
        r == name_taken_by_other(accounts@, id@, name@),
{
    for i in 0..accounts.len()
        invariant
            forall|j: int| 0 <= j < i ==> !((#[trigger] accounts@[j]).id@ != id@ && accounts@[j].name@ == name@),
    {
        if !str_eq(accounts[i].id.as_str(), id) && str_eq(accounts[i].name.as_str(), name) {
            return true;
        }
    }
    false
}

/// Adds an account, refusing a name that another account has; the first account added
/// becomes the active one. Gives back the account added.
pub fn add_account(store: &mut AccountsStore, account: StoredAccount) -> (r: Result<StoredAccount, StorageError>)
    ensures
        name_taken(old(store).accounts@, account.name@) ==> (r matches Err(StorageError::DuplicateAccountName { name })
            && name@ == account.name@) && *final(store) == *old(store),
        !name_taken(old(store).accounts@, account.name@) ==> {
            &&& r == Ok::<StoredAccount, StorageError>(account)
            &&& final(store).accounts@ == old(store).accounts@.push(account)
            &&& final(store).version == old(store).version
            &&& final(store).masked_account_ids == old(store).masked_account_ids
            &&& final(store).active_account_id == if old(store).accounts@.len() == 0 {
                Some(account.id)
            } else {
                old(store).active_account_id
            }
        },
{
    if name_in_use(&store.accounts, account.name.as_str()) {
        return Err(StorageError::DuplicateAccountName { name: account.name });
    }
    let account_copy = account.copy();
    store.accounts.push(account);
    if store.accounts.len() == 1 {
        store.active_account_id = Some(account_copy.id.clone());
    }
    Ok(account_copy)
}

/// Removes the account with this id and gives it back; where it was the active one, the
/// first remaining account becomes active, or none.
pub fn remove_account(store: &mut AccountsStore, account_id: &str) -> (r: Result<StoredAccount, StorageError>)
    ensures
        no_account_with_id(old(store).accounts@, account_id@) ==> (r matches Err(StorageError::AccountNotFound {
            account_id: a }) && a@ == account_id@) && *final(store) == *old(store),
        forall|i: int| #[trigger] is_first_index(old(store).accounts@, account_id@, i) ==> {
            let rest = old(store).accounts@.remove(i);
            &&& r == Ok::<StoredAccount, StorageError>(old(store).accounts@[i])
            &&& final(store).accounts@ == rest
            &&& final(store).version == old(store).version
            &&& final(store).masked_account_ids == old(store).masked_account_ids
            &&& opt_view(final(store).active_account_id) == if opt_view(old(store).active_account_id)
                == Some(account_id@) {
                if rest.len() > 0 { Some(rest[0].id@) } else { None }
            } else {
                opt_view(old(store).active_account_id)
            }
        },
{
    let ghost before = *store;
    let index = match find_account_index(&store.accounts, account_id) {
        Some(index) => index,
        None => {
            return Err(StorageError::AccountNotFound { account_id: String::from_str(account_id) });
        },
    };
    let removed = store.accounts.remove(index);
    let was_active = match &store.active_account_id {
        Some(active) => str_eq(active.as_str(), account_id),
        None => false,
    };
    if was_active {
        store.active_account_id = if store.accounts.len() > 0 {
            Some(store.accounts[0].id.clone())
        } else {
            None
        };
    }
    proof {
        lemma_first_index_unique(before.accounts@, account_id@, index as int);
    }
    Ok(removed)
}

/// Makes the account with this id the active one.
pub fn set_active_account(store: &mut AccountsStore, account_id: &str) -> (r: Result<(), StorageError>)
    ensures
        no_account_with_id(old(store).accounts@, account_id@) ==> (r matches Err(StorageError::AccountNotFound {
            account_id: a }) && a@ == account_id@) && *final(store) == *old(store),
        !no_account_with_id(old(store).accounts@, account_id@) ==> {
            &&& r is Ok
            &&& opt_view(final(store).active_account_id) == Some(account_id@)
            &&& final(store).accounts == old(store).accounts
            &&& final(store).version == old(store).version
            &&& final(store).masked_account_ids == old(store).masked_account_ids
        },
{
    match find_account_index(&store.accounts, account_id) {
        Some(_) => {
            store.active_account_id = Some(String::from_str(account_id));
            Ok(())
        },
        None => Err(StorageError::AccountNotFound { account_id: String::from_str(account_id) }),
    }
}

/// The account with this id.
pub fn get_account(store: &AccountsStore, account_id: &str) -> (r: Option<StoredAccount>)
    ensures
        no_account_with_id(store.accounts@, account_id@) ==> r is None,
        forall|i: int| #[trigger] is_first_index(store.accounts@, account_id@, i) ==> r == Some(store.accounts@[i]),
{
    match find_account_index(&store.accounts, account_id) {
        Some(index) => {
            proof {
                lemma_first_index_unique(store.accounts@, account_id@, index as int);
            }
            Some(store.accounts[index].copy())
        },
        None => None,
    }
}

/// The active account, if there is one and it exists.
pub fn get_active_account(store: &AccountsStore) -> (r: Option<StoredAccount>)
    ensures
        store.active_account_id is None ==> r is None,
        store.active_account_id matches Some(id) ==> {
            &&& no_account_with_id(store.accounts@, id@) ==> r is None
            &&& forall|i: int| #[trigger] is_first_index(store.accounts@, id@, i) ==> r == Some(store.accounts@[i])
        },
{
    match &store.active_account_id {
        Some(id) => get_account(store, id.as_str()),
        None => None,
    }
}

/// Records that the account with this id was used at `now`; tells whether there was one.
pub fn touch_account(store: &mut AccountsStore, account_id: &str, now: Timestamp) -> (found: bool)
    ensures
        found == !no_account_with_id(old(store).accounts@, account_id@),
        !found ==> *final(store) == *old(store),
        forall|i: int| #[trigger] is_first_index(old(store).accounts@, account_id@, i) ==> {
            &&& final(store).accounts@ == old(store).accounts@.update(i, StoredAccount {
                last_used_at: Some(now),
                ..old(store).accounts@[i]
            })
            &&& final(store).version == old(store).version
            &&& final(store).active_account_id == old(store).active_account_id
            &&& final(store).masked_account_ids == old(store).masked_account_ids
        },
{
    let ghost before = *store;
    match find_account_index(&store.accounts, account_id) {
        Some(index) => {
            let mut account = store.accounts[index].copy();
            account.last_used_at = Some(now);
            store.accounts[index] = account;
            proof {
                lemma_first_index_unique(before.accounts@, account_id@, index as int);
            }
            true
        },
        None => false,
    }
}

/// The ids of the accounts masked in the interface.
pub fn get_masked_account_ids(store: &AccountsStore) -> (ids: Vec<String>)
    ensures
        ids@ == store.masked_account_ids@,
{
    copy_strings(&store.masked_account_ids)
}

/// Replaces the ids of the accounts masked in the interface.
pub fn set_masked_account_ids(store: &mut AccountsStore, ids: Vec<String>)
    ensures
        final(store).masked_account_ids == ids,
        final(store).accounts == old(store).accounts,
        final(store).version == old(store).version,
        final(store).active_account_id == old(store).active_account_id,
{
    store.masked_account_ids = ids;
}

/// An optional field after an update that replaces it only where a new value is given.
pub open spec fn updated_opt(current: Option<String>, new: Option<String>) -> Option<Seq<char>> {
    match new {
        Some(v) => Some(v@),
        None => opt_view(current),
    }
}

/// The update changes an optional field.
pub open spec fn changes_opt(current: Option<String>, new: Option<String>) -> bool {
    new matches Some(v) && opt_view(current) != Some(v@)
}

/// `updated` is `account` with its name, email, plan and subscription expiry replaced where given.
pub open spec fn metadata_updated(account: StoredAccount, updated: StoredAccount, name: Option<String>,
    email: Option<String>, plan_type: Option<String>, subscription_expires_at: Option<Option<Timestamp>>) -> bool {
    &&& updated.id == account.id
    &&& updated.auth_data == account.auth_data
    &&& updated.created_at == account.created_at
    &&& updated.last_used_at == account.last_used_at
    &&& updated.name@ == match name { Some(n) => n@, None => account.name@ }
    &&& opt_view(updated.email) == updated_opt(account.email, email)
    &&& opt_view(updated.plan_type) == updated_opt(account.plan_type, plan_type)
    &&& updated.subscription_expires_at == match subscription_expires_at {
        Some(x) => x,
        None => account.subscription_expires_at,
    }
}

/// The update changes something.
pub open spec fn metadata_changes(account: StoredAccount, name: Option<String>, email: Option<String>,
    plan_type: Option<String>, subscription_expires_at: Option<Option<Timestamp>>) -> bool {
    ||| (name matches Some(n) && n@ != account.name@)
    ||| changes_opt(account.email, email)
    ||| changes_opt(account.plan_type, plan_type)
    ||| (subscription_expires_at matches Some(x) && x != account.subscription_expires_at)
}

fn replace_opt(current: &mut Option<String>, new: Option<String>) -> (changed: bool)
    ensures
        opt_view(*final(current)) == updated_opt(*old(current), new),
        changed == changes_opt(*old(current), new),
{
    match new {
        Some(v) => {
            let same = match current {
                Some(c) => *c == v,
                None => false,
            };
            if !same {
                *current = Some(v);
            }
            !same
        },
        None => false,
    }
}

/// Updates the name, email, plan and subscription expiry of the account with this id, where
/// new values are given; a name that another account has is refused. Gives back the account
/// and whether anything changed.
pub fn update_account_metadata(store: &mut AccountsStore, account_id: &str, name: Option<String>,
    email: Option<String>, plan_type: Option<String>, subscription_expires_at: Option<Option<Timestamp>>)
    -> (r: Result<(StoredAccount, bool), StorageError>)
    ensures
        (name matches Some(n) && name_taken_by_other(old(store).accounts@, account_id@, n@)) ==> (r matches Err(
            StorageError::DuplicateAccountName { name: d }) && d@ == name->0@) && *final(store) == *old(store),
        !(name matches Some(n) && name_taken_by_other(old(store).accounts@, account_id@, n@))
            && no_account_with_id(old(store).accounts@, account_id@) ==> (r matches Err(
            StorageError::AccountNotFound { account_id: a }) && a@ == account_id@) && *final(store) == *old(store),
        forall|i: int| #[trigger] is_first_index(old(store).accounts@, account_id@, i)
            && !(name matches Some(n) && name_taken_by_other(old(store).accounts@, account_id@, n@)) ==> {
            &&& r matches Ok((updated, changed))
            &&& changed == metadata_changes(old(store).accounts@[i], name, email, plan_type, subscription_expires_at)
            &&& metadata_updated(old(store).accounts@[i], updated, name, email, plan_type, subscription_expires_at)
            &&& final(store).accounts@ == old(store).accounts@.update(i, updated)
            &&& final(store).version == old(store).version
            &&& final(store).active_account_id == old(store).active_account_id
            &&& final(store).masked_account_ids == old(store).masked_account_ids
        },
{
    let ghost before = *store;
    if let Some(new_name) = &name {
        if name_in_use_by_other(&store.accounts, account_id, new_name.as_str()) {
            return Err(StorageError::DuplicateAccountName { name: new_name.clone() });
        }
    }
    let index = match find_account_index(&store.accounts, account_id) {
        Some(index) => index,
        None => {
            return Err(StorageError::AccountNotFound { account_id: String::from_str(account_id) });
        },
    };
    let mut account = store.accounts[index].copy();
    let mut changed = false;
    if let Some(new_name) = name {
        if account.name != new_name {
            account.name = new_name;
            changed = true;
        }
    }
    if replace_opt(&mut account.email, email) {
        changed = true;
    }
    if replace_opt(&mut account.plan_type, plan_type) {
        changed = true;
    }
    if let Some(expiry) = subscription_expires_at {
        if account.subscription_expires_at != expiry {
            account.subscription_expires_at = expiry;
            changed = true;
        }
    }
    let updated = account.copy();
    store.accounts[index] = account;
    proof {
        lemma_first_index_unique(before.accounts@, account_id@, index as int);
    }
    Ok((updated, changed))
}

/// Stores new OAuth tokens for the ChatGPT account with this id, with the ChatGPT account id,
/// email, plan and subscription expiry where given. Gives back the updated account.
pub fn update_account_chatgpt_tokens(store: &mut AccountsStore, account_id: &str, id_token: String,
    access_token: String, refresh_token: String, chatgpt_account_id: Option<String>, email: Option<String>,
    plan_type: Option<String>, subscription_expires_at: Option<Timestamp>) -> (r: Result<StoredAccount, StorageError>)
    ensures
        no_account_with_id(old(store).accounts@, account_id@) ==> (r matches Err(StorageError::AccountNotFound {
            account_id: a }) && a@ == account_id@) && *final(store) == *old(store),
        forall|i: int| #[trigger] is_first_index(old(store).accounts@, account_id@, i) ==> match old(store).accounts@[i].auth_data {
            AuthData::ApiKey { .. } => (r matches Err(StorageError::NotChatGptAccount)) && *final(store) == *old(store),
            AuthData::ChatGPT { account_id: stored_id, .. } => {
                let account = old(store).accounts@[i];
                &&& r matches Ok(updated)
                &&& final(store).accounts@ == old(store).accounts@.update(i, updated)
                &&& final(store).version == old(store).version
                &&& final(store).active_account_id == old(store).active_account_id
                &&& final(store).masked_account_ids == old(store).masked_account_ids
                &&& updated.id == account.id
                &&& updated.name == account.name
                &&& updated.created_at == account.created_at
                &&& updated.last_used_at == account.last_used_at
                &&& chatgpt_auth_is(updated.auth_data, id_token@, access_token@, refresh_token@,
                    updated_opt(stored_id, chatgpt_account_id))
                &&& opt_view(updated.email) == updated_opt(account.email, email)
                &&& opt_view(updated.plan_type) == updated_opt(account.plan_type, plan_type)
                &&& updated.subscription_expires_at == match subscription_expires_at {
                    Some(x) => Some(x),
                    None => account.subscription_expires_at,
                }
            },
        },
{
    let ghost before = *store;
    let index = match find_account_index(&store.accounts, account_id) {
        Some(index) => index,
        None => {
            return Err(StorageError::AccountNotFound { account_id: String::from_str(account_id) });
        },
    };
    proof {
        lemma_first_index_unique(before.accounts@, account_id@, index as int);
    }
    let mut account = store.accounts[index].copy();
    let new_auth = match &account.auth_data {
        AuthData::ApiKey { .. } => {
            return Err(StorageError::NotChatGptAccount);
        },
        AuthData::ChatGPT { account_id: stored_id, .. } => {
            let new_id = match chatgpt_account_id {
                Some(new_id) => Some(new_id),
                None => copy_opt(stored_id),
            };
            AuthData::ChatGPT { id_token, access_token, refresh_token, account_id: new_id }
        },
    };
    account.auth_data = new_auth;
    if let Some(new_email) = email {
        account.email = Some(new_email);
    }
    if let Some(new_plan_type) = plan_type {
        account.plan_type = Some(new_plan_type);
    }
    if let Some(expiry) = subscription_expires_at {
        account.subscription_expires_at = Some(expiry);
    }
    let updated = account.copy();
    store.accounts[index] = account;
    Ok(updated)
}

} // verus!
