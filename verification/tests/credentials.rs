use codex_switcher::credentials::{
    delete_account_credentials_from_keyring, hydrate_account_credentials_from_keyring,
    persist_account_credentials_to_keyring, read_api_key_from_keyring, read_chatgpt_keyring_record,
    read_chatgpt_tokens_from_keyring, write_chatgpt_tokens_to_keyring,
};
use codex_switcher::disk::{hydrate_accounts, prepare_accounts_for_disk};
use codex_switcher::keyring_store::{read_keyring_value, write_keyring_value};
use codex_switcher::manifest::ChatGptKeyringRecord;
use codex_switcher::names::chatgpt_manifest_entry_name;
use codex_switcher::types::{AccountsStore, AuthData, StorageError, StoredAccount, TokenData};

struct Cleanup(Vec<StoredAccount>);

impl Drop for Cleanup {
    fn drop(&mut self) {
        for account in &self.0 {
            let _ = delete_account_credentials_from_keyring(account);
        }
    }
}

fn chatgpt(name: &str, suffix: &str) -> StoredAccount {
    StoredAccount::new_chatgpt(
        name.into(),
        None,
        None,
        None,
        format!("id-{suffix}"),
        format!("access-{suffix}"),
        format!("refresh-{suffix}"),
        Some(format!("workspace-{name}")),
    )
}

fn tokens_of(account: &StoredAccount) -> (String, String, String, Option<String>) {
    match &account.auth_data {
        AuthData::ChatGPT { id_token, access_token, refresh_token, account_id } => {
            (id_token.clone(), access_token.clone(), refresh_token.clone(), account_id.clone())
        }
        AuthData::ApiKey { .. } => panic!("expected ChatGPT account"),
    }
}

#[test]
fn saved_store_holds_no_secrets_and_loads_back() {
    let a = chatgpt("A", "a1");
    let k = StoredAccount::new_api_key("K".into(), "sk-secret".into());
    let _cleanup = Cleanup(vec![a.clone(), k.clone()]);
    let store = AccountsStore {
        accounts: vec![a.clone(), k.clone()],
        active_account_id: Some(a.id.clone()),
        ..AccountsStore::default()
    };

    let mut disk = prepare_accounts_for_disk(&store).unwrap();
    assert_eq!(disk.accounts.len(), 2);
    assert_eq!(tokens_of(&disk.accounts[0]), (String::new(), String::new(), String::new(), Some("workspace-A".into())));
    assert!(matches!(&disk.accounts[1].auth_data, AuthData::ApiKey { key } if key.is_empty()));
    assert_eq!(disk.accounts[0].name, "A");
    assert_eq!(disk.active_account_id, store.active_account_id);

    let migrated = hydrate_accounts(&mut disk).unwrap();
    assert!(!migrated);
    assert_eq!(tokens_of(&disk.accounts[0]), tokens_of(&a));
    assert!(matches!(&disk.accounts[1].auth_data, AuthData::ApiKey { key } if key == "sk-secret"));
    assert_eq!(read_api_key_from_keyring(&k.id).unwrap().as_deref(), Some("sk-secret"));
}

#[test]
fn secrets_left_in_the_file_are_moved_into_the_store() {
    let a = chatgpt("A", "a1");
    let _cleanup = Cleanup(vec![a.clone()]);
    let mut loaded = AccountsStore { accounts: vec![a.clone()], ..AccountsStore::default() };
    assert!(hydrate_accounts(&mut loaded).unwrap());
    assert_eq!(tokens_of(&loaded.accounts[0]), tokens_of(&a));
    let (stored, legacy) = read_chatgpt_tokens_from_keyring(&a.id).unwrap().unwrap();
    assert!(!legacy);
    assert_eq!(stored.refresh_token, "refresh-a1");
}

#[test]
fn saving_fails_closed_without_stored_secrets() {
    let k = StoredAccount::new_api_key("K".into(), String::new());
    let c = StoredAccount::new_chatgpt(
        "C".into(), None, None, None, String::new(), String::new(), String::new(), None,
    );
    let _cleanup = Cleanup(vec![k.clone(), c.clone()]);

    let store = AccountsStore { accounts: vec![k.clone()], ..AccountsStore::default() };
    let err = prepare_accounts_for_disk(&store).unwrap_err();
    assert!(matches!(err, StorageError::ApiKeyMissing { ref account_id } if *account_id == k.id));

    let mut account = c.clone();
    let err = persist_account_credentials_to_keyring(&mut account).unwrap_err();
    assert!(matches!(err, StorageError::ChatGptCredentialsMissing { ref account_id } if *account_id == c.id));

    let mut account = c.clone();
    let err = hydrate_account_credentials_from_keyring(&mut account).unwrap_err();
    assert!(matches!(err, StorageError::ChatGptCredentialsMissing { .. }));
}

#[test]
fn legacy_token_records_are_migrated() {
    let a = StoredAccount::new_chatgpt(
        "A".into(), None, None, None, String::new(), String::new(), String::new(), None,
    );
    let _cleanup = Cleanup(vec![a.clone()]);
    let legacy = r#"{"id_token":"id-old","access_token":"access-old","refresh_token":"refresh-old","account_id":"workspace-old"}"#;
    assert!(read_chatgpt_keyring_record(&a.id).unwrap().is_none());
    write_keyring_value(&chatgpt_manifest_entry_name(&a.id), legacy).unwrap();

    let (tokens, used_legacy) = read_chatgpt_tokens_from_keyring(&a.id).unwrap().unwrap();
    assert!(used_legacy);
    assert_eq!(tokens.account_id.as_deref(), Some("workspace-old"));

    let mut account = a.clone();
    assert!(hydrate_account_credentials_from_keyring(&mut account).unwrap());
    assert_eq!(
        tokens_of(&account),
        ("id-old".into(), "access-old".into(), "refresh-old".into(), Some("workspace-old".into()))
    );
    assert!(matches!(read_chatgpt_keyring_record(&a.id).unwrap(), Some(ChatGptKeyringRecord::Current(_))));
    let (tokens, used_legacy) = read_chatgpt_tokens_from_keyring(&a.id).unwrap().unwrap();
    assert!(!used_legacy);
    assert_eq!(tokens.access_token, "access-old");
}

#[test]
fn new_tokens_replace_the_old_generation() {
    let a = chatgpt("A", "a1");
    let _cleanup = Cleanup(vec![a.clone()]);
    let first = TokenData {
        id_token: "id-1".into(),
        access_token: "access-1".into(),
        refresh_token: "refresh-1".into(),
        account_id: None,
    };
    write_chatgpt_tokens_to_keyring(&a.id, &first).unwrap();
    let Some(ChatGptKeyringRecord::Current(m1)) = read_chatgpt_keyring_record(&a.id).unwrap() else {
        panic!("expected a manifest");
    };
    write_chatgpt_tokens_to_keyring(&a.id, &first).unwrap();
    let Some(ChatGptKeyringRecord::Current(m2)) = read_chatgpt_keyring_record(&a.id).unwrap() else {
        panic!("expected a manifest");
    };
    assert_eq!(m1.active_generation.id, m2.active_generation.id);

    let second = TokenData { refresh_token: "refresh-2".into(), ..first.clone() };
    write_chatgpt_tokens_to_keyring(&a.id, &second).unwrap();
    let Some(ChatGptKeyringRecord::Current(m3)) = read_chatgpt_keyring_record(&a.id).unwrap() else {
        panic!("expected a manifest");
    };
    assert_ne!(m3.active_generation.id, m1.active_generation.id);
    assert!(m3.stale_generations.is_empty());
    let (stored, _) = read_chatgpt_tokens_from_keyring(&a.id).unwrap().unwrap();
    assert_eq!(stored.refresh_token, "refresh-2");
}

#[test]
fn oversized_tokens_are_refused() {
    let a = chatgpt("A", "a1");
    let _cleanup = Cleanup(vec![a.clone()]);
    let huge = TokenData {
        id_token: "i".repeat(64 * 1000 + 1),
        access_token: "a".into(),
        refresh_token: "r".into(),
        account_id: None,
    };
    let err = write_chatgpt_tokens_to_keyring(&a.id, &huge).unwrap_err();
    assert!(matches!(err, StorageError::TokenTooLarge));
    assert!(read_chatgpt_keyring_record(&a.id).unwrap().is_none());
    assert!(read_keyring_value(&chatgpt_manifest_entry_name(&a.id)).unwrap().is_none());
}

#[test]
fn deleting_credentials_removes_every_entry() {
    let a = chatgpt("A", "a1");
    let tokens = TokenData {
        id_token: "i".repeat(2500),
        access_token: "a".into(),
        refresh_token: "r".into(),
        account_id: None,
    };
    write_chatgpt_tokens_to_keyring(&a.id, &tokens).unwrap();
    delete_account_credentials_from_keyring(&a).unwrap();
    assert!(read_chatgpt_tokens_from_keyring(&a.id).unwrap().is_none());
}

#[test]
fn empty_stores_need_no_credential_store() {
    let store = AccountsStore::default();
    let disk = prepare_accounts_for_disk(&store).unwrap();
    assert!(disk.accounts.is_empty());
    let mut loaded = AccountsStore::default();
    assert!(!hydrate_accounts(&mut loaded).unwrap());
}
