use base64::Engine;
use codex_switcher::credentials::{
    delete_account_credentials_from_keyring, read_chatgpt_tokens_from_keyring,
    write_chatgpt_tokens_to_keyring,
};
use codex_switcher::store::sync_active_account_tokens;
use codex_switcher::types::{AccountsStore, AuthData, AuthDotJson, StoredAccount, TokenData};

struct TestCredentialCleanup(StoredAccount);

impl Drop for TestCredentialCleanup {
    fn drop(&mut self) {
        let _ = delete_account_credentials_from_keyring(&self.0);
    }
}

fn account(name: &str, account_id: &str, suffix: &str) -> StoredAccount {
    StoredAccount::new_chatgpt(
        name.into(),
        None,
        None,
        None,
        format!("id-{suffix}"),
        format!("access-{suffix}"),
        format!("refresh-{suffix}"),
        Some(account_id.into()),
    )
}

fn auth(account_id: &str, suffix: &str) -> AuthDotJson {
    AuthDotJson {
        openai_api_key: None,
        tokens: Some(TokenData {
            id_token: format!("id-{suffix}"),
            access_token: format!("access-{suffix}"),
            refresh_token: format!("refresh-{suffix}"),
            account_id: Some(account_id.into()),
        }),
        last_refresh: None,
    }
}

fn refresh_token(account: &StoredAccount) -> &str {
    match &account.auth_data {
        AuthData::ChatGPT { refresh_token, .. } => refresh_token,
        AuthData::ApiKey { .. } => panic!("expected ChatGPT account"),
    }
}

fn id_token_with_account_id(account_id: &str, suffix: &str) -> String {
    let payload =
        format!(r#"{{"https://api.openai.com/auth":{{"chatgpt_account_id":"{account_id}"}}}}"#);
    let encoded = base64::engine::general_purpose::URL_SAFE_NO_PAD.encode(payload);
    format!("header.{encoded}.{suffix}")
}

#[test]
fn stores_large_oauth_tokens_as_separate_windows_credentials() {
    let account = account("keyring-test", "workspace-test", "initial");
    let _cleanup = TestCredentialCleanup(account.clone());
    let tokens = TokenData {
        id_token: "i".repeat(2200),
        access_token: "a".repeat(2200),
        refresh_token: "r".repeat(2200),
        account_id: Some("workspace-test".into()),
    };

    write_chatgpt_tokens_to_keyring(&account.id, &tokens).unwrap();
    let (stored, legacy) = read_chatgpt_tokens_from_keyring(&account.id)
        .unwrap()
        .expect("credentials should exist");

    assert!(!legacy);
    assert_eq!(stored.id_token, tokens.id_token);
    assert_eq!(stored.access_token, tokens.access_token);
    assert_eq!(stored.refresh_token, tokens.refresh_token);
}

#[test]
fn preserves_rotated_tokens_before_switching_away_and_back() {
    let account_a = account("A", "workspace-a", "a1");
    let account_a_id = account_a.id.clone();
    let account_b = account("B", "workspace-b", "b1");
    let account_b_id = account_b.id.clone();
    let mut store = AccountsStore {
        accounts: vec![account_a, account_b],
        active_account_id: Some(account_a_id.clone()),
        ..AccountsStore::default()
    };

    assert!(!sync_active_account_tokens(
        &mut store,
        &auth("workspace-b", "wrong-account")
    ));
    assert_eq!(refresh_token(&store.accounts[0]), "refresh-a1");

    let mut auth_without_top_level_id = auth("workspace-b", "missing-id");
    let tokens = auth_without_top_level_id.tokens.as_mut().unwrap();
    tokens.id_token = id_token_with_account_id("workspace-b", "signature");
    tokens.account_id = None;
    assert!(!sync_active_account_tokens(
        &mut store,
        &auth_without_top_level_id
    ));
    assert_eq!(refresh_token(&store.accounts[0]), "refresh-a1");

    let mut auth_without_identity = auth("workspace-a", "unknown");
    auth_without_identity.tokens.as_mut().unwrap().account_id = None;
    assert!(!sync_active_account_tokens(
        &mut store,
        &auth_without_identity
    ));
    assert_eq!(refresh_token(&store.accounts[0]), "refresh-a1");

    assert!(sync_active_account_tokens(
        &mut store,
        &auth("workspace-a", "a2")
    ));
    store.active_account_id = Some(account_b_id);

    let restored_a = store
        .accounts
        .iter()
        .find(|account| account.id == account_a_id)
        .unwrap();
    let AuthData::ChatGPT { refresh_token, .. } = &restored_a.auth_data else {
        panic!("expected ChatGPT account");
    };
    assert_eq!(refresh_token, "refresh-a2");
}

#[test]
fn rejects_live_tokens_when_stored_account_identity_is_unknown() {
    let mut account = account("A", "workspace-a", "a1");
    let account_id = account.id.clone();
    let AuthData::ChatGPT {
        id_token,
        account_id: chatgpt_account_id,
        ..
    } = &mut account.auth_data
    else {
        panic!("expected ChatGPT account");
    };
    *id_token = "opaque-id-token".into();
    *chatgpt_account_id = None;

    let mut store = AccountsStore {
        accounts: vec![account],
        active_account_id: Some(account_id),
        ..AccountsStore::default()
    };

    assert!(!sync_active_account_tokens(
        &mut store,
        &auth("workspace-a", "a2")
    ));
    assert_eq!(refresh_token(&store.accounts[0]), "refresh-a1");
}

#[test]
fn derives_stored_identity_from_id_token_and_backfills_account_id() {
    let mut account = account("A", "workspace-a", "a1");
    let account_id = account.id.clone();
    let AuthData::ChatGPT {
        id_token,
        account_id: chatgpt_account_id,
        ..
    } = &mut account.auth_data
    else {
        panic!("expected ChatGPT account");
    };
    *id_token = id_token_with_account_id("workspace-a", "stored");
    *chatgpt_account_id = None;

    let mut store = AccountsStore {
        accounts: vec![account],
        active_account_id: Some(account_id),
        ..AccountsStore::default()
    };

    assert!(sync_active_account_tokens(
        &mut store,
        &auth("workspace-a", "a2")
    ));
    let AuthData::ChatGPT { account_id, .. } = &store.accounts[0].auth_data else {
        panic!("expected ChatGPT account");
    };
    assert_eq!(account_id.as_deref(), Some("workspace-a"));
    assert_eq!(refresh_token(&store.accounts[0]), "refresh-a2");
}

#[test]
fn syncing_the_same_tokens_twice_changes_the_store_once() {
    let account = account("A", "workspace-a", "a1");
    let account_id = account.id.clone();
    let mut store = AccountsStore {
        accounts: vec![account],
        active_account_id: Some(account_id),
        ..AccountsStore::default()
    };
    assert!(sync_active_account_tokens(&mut store, &auth("workspace-a", "a2")));
    assert!(!sync_active_account_tokens(&mut store, &auth("workspace-a", "a2")));
    assert_eq!(refresh_token(&store.accounts[0]), "refresh-a2");
}

#[test]
fn sync_does_nothing_without_an_active_account_or_live_tokens() {
    let account = account("A", "workspace-a", "a1");
    let account_id = account.id.clone();
    let mut store = AccountsStore {
        accounts: vec![account],
        active_account_id: None,
        ..AccountsStore::default()
    };
    assert!(!sync_active_account_tokens(&mut store, &auth("workspace-a", "a2")));
    store.active_account_id = Some(account_id);
    let no_tokens = AuthDotJson { openai_api_key: Some("sk".into()), tokens: None, last_refresh: None };
    assert!(!sync_active_account_tokens(&mut store, &no_tokens));
    store.active_account_id = Some("missing".into());
    assert!(!sync_active_account_tokens(&mut store, &auth("workspace-a", "a2")));
    assert_eq!(refresh_token(&store.accounts[0]), "refresh-a1");
}

#[test]
fn sync_leaves_api_key_accounts_alone() {
    let account = StoredAccount::new_api_key("K".into(), "sk-test".into());
    let account_id = account.id.clone();
    let mut store = AccountsStore {
        accounts: vec![account],
        active_account_id: Some(account_id),
        ..AccountsStore::default()
    };
    assert!(!sync_active_account_tokens(&mut store, &auth("workspace-a", "a2")));
    assert!(matches!(&store.accounts[0].auth_data, AuthData::ApiKey { key } if key == "sk-test"));
}
