use codex_switcher::store::{
    add_account, find_account_index, get_account, get_active_account, get_masked_account_ids,
    remove_account, set_active_account, set_masked_account_ids, touch_account,
    update_account_chatgpt_tokens, update_account_metadata,
};
use codex_switcher::types::{AccountsStore, AuthData, StorageError, StoredAccount, Timestamp};

fn chatgpt(name: &str) -> StoredAccount {
    StoredAccount::new_chatgpt(
        name.into(),
        Some(format!("{name}@example.com")),
        Some("plus".into()),
        None,
        format!("id-{name}"),
        format!("access-{name}"),
        format!("refresh-{name}"),
        Some(format!("workspace-{name}")),
    )
}

#[test]
fn first_added_account_becomes_active() {
    let mut store = AccountsStore::default();
    let a = chatgpt("A");
    let a_id = a.id.clone();
    let added = add_account(&mut store, a).unwrap();
    assert_eq!(added.id, a_id);
    assert_eq!(store.accounts.len(), 1);
    assert_eq!(store.active_account_id.as_deref(), Some(a_id.as_str()));

    let b = chatgpt("B");
    add_account(&mut store, b).unwrap();
    assert_eq!(store.accounts.len(), 2);
    assert_eq!(store.active_account_id.as_deref(), Some(a_id.as_str()));
}

#[test]
fn duplicate_names_are_refused() {
    let mut store = AccountsStore::default();
    add_account(&mut store, chatgpt("A")).unwrap();
    let err = add_account(&mut store, StoredAccount::new_api_key("A".into(), "sk".into())).unwrap_err();
    assert!(matches!(err, StorageError::DuplicateAccountName { ref name } if name == "A"));
    assert_eq!(store.accounts.len(), 1);
}

#[test]
fn added_account_is_found_by_its_id() {
    let mut store = AccountsStore::default();
    add_account(&mut store, chatgpt("A")).unwrap();
    let b = chatgpt("B");
    let b_id = b.id.clone();
    add_account(&mut store, b).unwrap();
    let found = get_account(&store, &b_id).unwrap();
    assert_eq!(found.name, "B");
    assert_eq!(find_account_index(&store.accounts, &b_id), Some(1));
    assert!(get_account(&store, "nobody").is_none());
}

#[test]
fn removing_the_active_account_activates_the_first_remaining() {
    let mut store = AccountsStore::default();
    let a = chatgpt("A");
    let a_id = a.id.clone();
    let b = chatgpt("B");
    let b_id = b.id.clone();
    add_account(&mut store, a).unwrap();
    add_account(&mut store, b).unwrap();
    let removed = remove_account(&mut store, &a_id).unwrap();
    assert_eq!(removed.name, "A");
    assert_eq!(store.active_account_id.as_deref(), Some(b_id.as_str()));
    assert!(get_account(&store, &a_id).is_none());

    remove_account(&mut store, &b_id).unwrap();
    assert!(store.accounts.is_empty());
    assert!(store.active_account_id.is_none());
}

#[test]
fn removing_another_account_keeps_the_active_one() {
    let mut store = AccountsStore::default();
    let a = chatgpt("A");
    let a_id = a.id.clone();
    let b = chatgpt("B");
    let b_id = b.id.clone();
    add_account(&mut store, a).unwrap();
    add_account(&mut store, b).unwrap();
    remove_account(&mut store, &b_id).unwrap();
    assert_eq!(store.active_account_id.as_deref(), Some(a_id.as_str()));
}

#[test]
fn removing_an_unknown_account_fails() {
    let mut store = AccountsStore::default();
    add_account(&mut store, chatgpt("A")).unwrap();
    let err = remove_account(&mut store, "missing").unwrap_err();
    assert!(matches!(err, StorageError::AccountNotFound { ref account_id } if account_id == "missing"));
    assert_eq!(store.accounts.len(), 1);
}

#[test]
fn activating_an_account_makes_it_the_active_one() {
    let mut store = AccountsStore::default();
    add_account(&mut store, chatgpt("A")).unwrap();
    let b = chatgpt("B");
    let b_id = b.id.clone();
    add_account(&mut store, b).unwrap();
    set_active_account(&mut store, &b_id).unwrap();
    assert_eq!(get_active_account(&store).unwrap().name, "B");
    let err = set_active_account(&mut store, "missing").unwrap_err();
    assert!(matches!(err, StorageError::AccountNotFound { .. }));
    assert_eq!(store.active_account_id.as_deref(), Some(b_id.as_str()));
}

#[test]
fn no_active_account_without_an_active_id() {
    let store = AccountsStore::default();
    assert!(get_active_account(&store).is_none());
}

#[test]
fn touching_sets_the_last_use() {
    let mut store = AccountsStore::default();
    let a = chatgpt("A");
    let a_id = a.id.clone();
    add_account(&mut store, a).unwrap();
    let when = Timestamp { seconds: 1_700_000_000, nanos: 5 };
    assert!(touch_account(&mut store, &a_id, when));
    assert_eq!(store.accounts[0].last_used_at, Some(when));
    assert!(!touch_account(&mut store, "missing", when));
}

#[test]
fn masked_ids_are_kept() {
    let mut store = AccountsStore::default();
    assert!(get_masked_account_ids(&store).is_empty());
    set_masked_account_ids(&mut store, vec!["x".into(), "y".into()]);
    assert_eq!(get_masked_account_ids(&store), vec!["x".to_string(), "y".to_string()]);
}

#[test]
fn metadata_updates_report_changes() {
    let mut store = AccountsStore::default();
    let a = chatgpt("A");
    let a_id = a.id.clone();
    add_account(&mut store, a).unwrap();
    add_account(&mut store, chatgpt("B")).unwrap();

    let (same, changed) =
        update_account_metadata(&mut store, &a_id, Some("A".into()), Some("A@example.com".into()), None, None)
            .unwrap();
    assert!(!changed);
    assert_eq!(same.name, "A");

    let expiry = Timestamp { seconds: 1_800_000_000, nanos: 0 };
    let (updated, changed) = update_account_metadata(
        &mut store,
        &a_id,
        Some("Renamed".into()),
        None,
        Some("pro".into()),
        Some(Some(expiry)),
    )
    .unwrap();
    assert!(changed);
    assert_eq!(updated.name, "Renamed");
    assert_eq!(updated.email.as_deref(), Some("A@example.com"));
    assert_eq!(updated.plan_type.as_deref(), Some("pro"));
    assert_eq!(updated.subscription_expires_at, Some(expiry));
    assert_eq!(store.accounts[0].name, "Renamed");

    let (cleared, changed) = update_account_metadata(&mut store, &a_id, None, None, None, Some(None)).unwrap();
    assert!(changed);
    assert_eq!(cleared.subscription_expires_at, None);
}

#[test]
fn metadata_update_refuses_a_taken_name_and_an_unknown_account() {
    let mut store = AccountsStore::default();
    let a = chatgpt("A");
    let a_id = a.id.clone();
    add_account(&mut store, a).unwrap();
    add_account(&mut store, chatgpt("B")).unwrap();
    let err = update_account_metadata(&mut store, &a_id, Some("B".into()), None, None, None).unwrap_err();
    assert!(matches!(err, StorageError::DuplicateAccountName { ref name } if name == "B"));
    assert_eq!(store.accounts[0].name, "A");
    let err = update_account_metadata(&mut store, "missing", None, None, None, None).unwrap_err();
    assert!(matches!(err, StorageError::AccountNotFound { .. }));
}

#[test]
fn token_updates_replace_the_oauth_tokens() {
    let mut store = AccountsStore::default();
    let a = chatgpt("A");
    let a_id = a.id.clone();
    add_account(&mut store, a).unwrap();
    let updated = update_account_chatgpt_tokens(
        &mut store,
        &a_id,
        "id-new".into(),
        "access-new".into(),
        "refresh-new".into(),
        None,
        Some("new@example.com".into()),
        None,
        Some(Timestamp { seconds: 10, nanos: 0 }),
    )
    .unwrap();
    match &updated.auth_data {
        AuthData::ChatGPT { id_token, access_token, refresh_token, account_id } => {
            assert_eq!(id_token, "id-new");
            assert_eq!(access_token, "access-new");
            assert_eq!(refresh_token, "refresh-new");
            assert_eq!(account_id.as_deref(), Some("workspace-A"));
        }
        AuthData::ApiKey { .. } => panic!("expected ChatGPT account"),
    }
    assert_eq!(updated.email.as_deref(), Some("new@example.com"));
    assert_eq!(updated.plan_type.as_deref(), Some("plus"));
    assert_eq!(updated.subscription_expires_at, Some(Timestamp { seconds: 10, nanos: 0 }));
    assert_eq!(store.accounts[0].email.as_deref(), Some("new@example.com"));
}

#[test]
fn token_updates_refuse_api_key_accounts() {
    let mut store = AccountsStore::default();
    let k = StoredAccount::new_api_key("K".into(), "sk".into());
    let k_id = k.id.clone();
    add_account(&mut store, k).unwrap();
    let err = update_account_chatgpt_tokens(
        &mut store, &k_id, "i".into(), "a".into(), "r".into(), None, None, None, None,
    )
    .unwrap_err();
    assert!(matches!(err, StorageError::NotChatGptAccount));
    let err = update_account_chatgpt_tokens(
        &mut store, "missing", "i".into(), "a".into(), "r".into(), None, None, None, None,
    )
    .unwrap_err();
    assert!(matches!(err, StorageError::AccountNotFound { .. }));
}

#[test]
fn new_accounts_get_uuid_ids() {
    let a = StoredAccount::new_api_key("K".into(), "sk".into());
    let b = StoredAccount::new_api_key("K".into(), "sk".into());
    assert_eq!(a.id.len(), 36);
    assert_eq!(a.id.chars().filter(|c| *c == '-').count(), 4);
    assert_ne!(a.id, b.id);
    assert!(a.last_used_at.is_none());
}
