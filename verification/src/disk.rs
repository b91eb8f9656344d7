//! The account store as the accounts file holds it: without secrets.
use vstd::prelude::*;
use crate::types::{AccountsStore, AuthData, StoredAccount, StorageError, copy_opt, copy_strings, opt_view};
use crate::store::same_metadata;
use crate::credentials::{credentials_cleared, same_kind, credential_store_error, size_error, persist_account_credentials_to_keyring,
    hydrate_account_credentials_from_keyring, rewrote_tokens};

verus! {

/// `disk` is `store` with every secret moved out: the same accounts in the same order,
/// with the same metadata, and empty credentials.
pub open spec fn is_disk_form(store: AccountsStore, disk: AccountsStore) -> bool {
    &&& disk.version == store.version
    &&& disk.active_account_id == store.active_account_id
    &&& disk.masked_account_ids@ == store.masked_account_ids@
    &&& disk.accounts@.len() == store.accounts@.len()
    &&& forall|i: int| 0 <= i < store.accounts@.len() ==> same_metadata(#[trigger] disk.accounts@[i], store.accounts@[i])
        && credentials_cleared(store.accounts@[i].auth_data, disk.accounts@[i].auth_data)
}

/// `e` is a failure of the credential store, a token refused for its size, or names an account of `accounts` whose
/// secrets are found neither in the file nor in the credential store.
pub open spec fn store_secret_error(e: StorageError, accounts: Seq<StoredAccount>) -> bool {
    ||| credential_store_error(e)
    ||| size_error(e)
    ||| (e matches StorageError::ApiKeyMissing { account_id: a }
        && exists|i: int| 0 <= i < accounts.len() && (#[trigger] accounts[i]).id@ == a@)
    ||| (e matches StorageError::ChatGptCredentialsMissing { account_id: a }
        && exists|i: int| 0 <= i < accounts.len() && (#[trigger] accounts[i]).id@ == a@)
}

/// The account holds secrets itself: an API key, or some ChatGPT token.
pub open spec fn holds_secrets(a: AuthData) -> bool {
    match a {
        AuthData::ApiKey { key } => key@.len() > 0,
        AuthData::ChatGPT { id_token, access_token, refresh_token, .. } => id_token@.len() > 0
            || access_token@.len() > 0 || refresh_token@.len() > 0,
    }
}

/// The store to be written to the accounts file: every account's secrets are first put
/// into the credential store, then emptied. Fails, and nothing may be written, where a
/// secret cannot be stored or is found neither in the file nor in the store.
pub fn prepare_accounts_for_disk(store: &AccountsStore) -> (r: Result<AccountsStore, StorageError>)
    ensures
        r matches Ok(disk) ==> is_disk_form(*store, disk),
        store.accounts@.len() == 0 ==> r is Ok,
        r matches Err(e) ==> store_secret_error(e, store.accounts@),
{
    let mut accounts: Vec<StoredAccount> = Vec::new();
    for i in 0..store.accounts.len()
        invariant
            accounts@.len() == i,
            forall|k: int| 0 <= k < i ==> same_metadata(#[trigger] accounts@[k], store.accounts@[k])
                && credentials_cleared(store.accounts@[k].auth_data, accounts@[k].auth_data),
    {
        let mut account = store.accounts[i].copy();
        if let Err(e) = persist_account_credentials_to_keyring(&mut account) {
            assert(store.accounts@[i as int].id@ == account.id@);
            return Err(e);
        }
        accounts.push(account);
    }
    Ok(AccountsStore {
        version: store.version,
        accounts,
        active_account_id: copy_opt(&store.active_account_id),
        masked_account_ids: copy_strings(&store.masked_account_ids),
    })
}

/// `after` is `before` with its secrets filled in: same metadata and kind, and an API key present.
pub open spec fn is_hydrated(before: StoredAccount, after: StoredAccount) -> bool {
    &&& same_metadata(after, before)
    &&& same_kind(after.auth_data, before.auth_data)
    &&& after.auth_data matches AuthData::ApiKey { key } ==> key@.len() > 0
}

/// Hydration changed the ChatGPT account id of an account (from `before` to `after`).
pub open spec fn account_id_changed(before: StoredAccount, after: StoredAccount) -> bool {
    &&& before.auth_data matches AuthData::ChatGPT { account_id: x, .. }
    &&& after.auth_data matches AuthData::ChatGPT { account_id: y, .. }
    &&& opt_view(x) != opt_view(y)
}

/// Account `i` gave a reason to write the file again: it held secrets itself (now moved into
/// the credential store), hydration changed its ChatGPT account id, or its tokens, found in
/// the form of earlier versions, were stored again in the current form.
pub open spec fn reason_to_rewrite(before: StoredAccount, after: StoredAccount) -> bool {
    ||| holds_secrets(before.auth_data)
    ||| account_id_changed(before, after)
    ||| rewrote_tokens(before.id@, after.auth_data)
}

/// Fills in every account's secrets from the credential store (moving any that the file
/// still held into it); tells whether the file needs to be written again.
pub fn hydrate_accounts(store: &mut AccountsStore) -> (r: Result<bool, StorageError>)
    ensures
        r matches Ok(true) ==> exists|i: int| 0 <= i < old(store).accounts@.len()
            && #[trigger] reason_to_rewrite(old(store).accounts@[i], final(store).accounts@[i]),
        old(store).accounts@.len() == 0 ==> r == Ok::<bool, StorageError>(false),
        r matches Err(e) ==> store_secret_error(e, old(store).accounts@),
        r matches Ok(migrated) ==> ((exists|i: int| 0 <= i < old(store).accounts@.len()
            && holds_secrets((#[trigger] old(store).accounts@[i]).auth_data)) ==> migrated),
        r matches Ok(migrated) ==> ((exists|i: int| 0 <= i < old(store).accounts@.len()
            && #[trigger] account_id_changed(old(store).accounts@[i], final(store).accounts@[i])) ==> migrated),
        r is Ok ==> {
            &&& final(store).version == old(store).version
            &&& final(store).active_account_id == old(store).active_account_id
            &&& final(store).masked_account_ids == old(store).masked_account_ids
            &&& final(store).accounts@.len() == old(store).accounts@.len()
            &&& forall|i: int| 0 <= i < old(store).accounts@.len()
                ==> is_hydrated(old(store).accounts@[i], #[trigger] final(store).accounts@[i])
        },
{
    let ghost before = *store;
    let mut migrated = false;
    let n = store.accounts.len();
    let mut i: usize = 0;
    while i < n
        invariant
            i <= n,
            n == before.accounts@.len(),
            before == *old(store),
            i == 0 ==> !migrated,
            store.version == before.version,
            store.active_account_id == before.active_account_id,
            store.masked_account_ids == before.masked_account_ids,
            store.accounts@.len() == before.accounts@.len(),
            forall|k: int| 0 <= k < i ==> is_hydrated(before.accounts@[k], #[trigger] store.accounts@[k]),
            forall|k: int| i <= k < before.accounts@.len() ==> #[trigger] store.accounts@[k] == before.accounts@[k],
            (exists|k: int| 0 <= k < i && holds_secrets((#[trigger] before.accounts@[k]).auth_data)) ==> migrated,
            (exists|k: int| 0 <= k < i && #[trigger] account_id_changed(before.accounts@[k], store.accounts@[k]))
                ==> migrated,
            migrated ==> exists|k: int| 0 <= k < i
                && #[trigger] reason_to_rewrite(before.accounts@[k], store.accounts@[k]),
        decreases n - i,
    {
        let mut account = store.accounts[i].copy();
        let changed = match hydrate_account_credentials_from_keyring(&mut account) {
            Ok(changed) => changed,
            Err(e) => {
                assert(before.accounts@[i as int].id@ == account.id@);
                return Err(e);
            },
        };
        if changed {
            migrated = true;
        }
        let ghost hydrated = account;
        proof {
            if holds_secrets(before.accounts@[i as int].auth_data) {
                assert(changed);
            }
            if account_id_changed(before.accounts@[i as int], hydrated) {
                assert(changed);
            }
            if changed {
                assert(reason_to_rewrite(before.accounts@[i as int], hydrated));
            }
        }
        let ghost prior = store.accounts@;
        store.accounts.set(i, account);
        proof {
            if migrated {
                if changed {
                    assert(reason_to_rewrite(before.accounts@[i as int], store.accounts@[i as int]));
                } else {
                    let k = choose|k: int| 0 <= k < i && #[trigger] reason_to_rewrite(before.accounts@[k], prior[k]);
                    assert(store.accounts@[k] == prior[k]);
                    assert(reason_to_rewrite(before.accounts@[k], store.accounts@[k]));
                }
            }
        }
        i += 1;
    }
    Ok(migrated)
}

/// Saving a store that was loaded changes nothing but the secrets: the accounts file keeps
/// its version, active account and masked ids, and each account as it was, with its
/// secrets emptied.
pub proof fn law_load_then_save_keeps_metadata(file: AccountsStore, loaded: AccountsStore, saved: AccountsStore)
    requires
        loaded.version == file.version,
        loaded.active_account_id == file.active_account_id,
        loaded.masked_account_ids == file.masked_account_ids,
        loaded.accounts@.len() == file.accounts@.len(),
        forall|i: int| 0 <= i < file.accounts@.len() ==> is_hydrated(file.accounts@[i], #[trigger] loaded.accounts@[i]),
        is_disk_form(loaded, saved),
    ensures
        saved.version == file.version,
        saved.active_account_id == file.active_account_id,
        saved.masked_account_ids@ == file.masked_account_ids@,
        saved.accounts@.len() == file.accounts@.len(),
        forall|i: int| 0 <= i < file.accounts@.len() ==> same_metadata(#[trigger] saved.accounts@[i], file.accounts@[i])
            && same_kind(saved.accounts@[i].auth_data, file.accounts@[i].auth_data),
{
    assert forall|i: int| 0 <= i < file.accounts@.len() implies same_metadata(#[trigger] saved.accounts@[i],
        file.accounts@[i]) && same_kind(saved.accounts@[i].auth_data, file.accounts@[i].auth_data) by {
        assert(is_hydrated(file.accounts@[i], loaded.accounts@[i]));
        assert(same_metadata(saved.accounts@[i], loaded.accounts@[i]));
    }
}

} // verus!
