use base64::Engine;
use codex_switcher::chunks::split_keyring_value;
use codex_switcher::claims::{jwt_payload_segment, parse_chatgpt_id_token_claims};
use codex_switcher::credentials::{
    apply_stored_tokens, blank, classify_keyring_record, cleaned_manifest, clear_when_stored, first_failure_of,
    join_chunks, keep_failed, plan_manifest, stored_api_key, stored_chatgpt_tokens, tokens_for_record, tokens_match,
};
use codex_switcher::credentials::{
    chunk_writes, generation_entries, legacy_rewrite, reuses_active_generation, secret_of, tokens_from_chunks,
    StoredSecret,
};
use codex_switcher::json::compact_json;
use codex_switcher::generations::{listed_generations, sort_dedup_by_id, stale_generations_after};
use codex_switcher::manifest::{
    manifest_from_json, manifest_to_json, tokens_from_json, ChatGptKeyringRecord, CredentialGeneration,
    CredentialManifest,
};
use codex_switcher::keyring_store::{delete_outcome, open_outcome, read_outcome, write_outcome};
use codex_switcher::names::{api_key_entry_name, chatgpt_manifest_entry_name, chatgpt_token_entry_name};
use codex_switcher::paths::{get_accounts_file, get_config_dir, get_settings_file};
use codex_switcher::text::decimal_string;
use codex_switcher::types::{AuthData, StorageError, StoredAccount, TokenData};

fn generation(id: &str, a: u16, b: u16, c: u16) -> CredentialGeneration {
    CredentialGeneration {
        id: id.into(),
        id_token_chunks: a,
        access_token_chunks: b,
        refresh_token_chunks: c,
    }
}

#[test]
fn entry_names() {
    assert_eq!(api_key_entry_name("abc"), "api-key:abc");
    assert_eq!(chatgpt_manifest_entry_name("abc"), "chatgpt:abc");
    assert_eq!(chatgpt_token_entry_name("abc", "gen", "id-token", 12), "chatgpt:abc:gen:id-token:12");
    assert_eq!(decimal_string(0), "0");
    assert_eq!(decimal_string(65535), "65535");
}

#[test]
fn splits_large_tokens_into_thousand_unit_chunks() {
    let chunks = split_keyring_value(&"i".repeat(2200));
    assert_eq!(chunks.len(), 3);
    assert_eq!(chunks[0].len(), 1000);
    assert_eq!(chunks[1].len(), 1000);
    assert_eq!(chunks[2].len(), 200);
    assert_eq!(chunks.concat(), "i".repeat(2200));
}

#[test]
fn empty_value_is_one_empty_chunk() {
    assert_eq!(split_keyring_value(""), vec![String::new()]);
    assert_eq!(split_keyring_value("abc"), vec!["abc".to_string()]);
}

#[test]
fn chunks_count_utf16_units() {
    let value = format!("{}\u{1F600}", "a".repeat(999));
    let chunks = split_keyring_value(&value);
    assert_eq!(chunks, vec!["a".repeat(999), "\u{1F600}".to_string()]);
    let exact = "a".repeat(1000);
    assert_eq!(split_keyring_value(&exact), vec![exact.clone()]);
}

#[test]
fn manifest_text_is_compact_json() {
    let m = CredentialManifest {
        version: 1,
        active_generation: generation("g\"1", 1, 2, 3),
        stale_generations: vec![generation("old", 4, 5, 6)],
    };
    assert_eq!(
        manifest_to_json(&m),
        r#"{"version":1,"active_generation":{"id":"g\"1","id_token_chunks":1,"access_token_chunks":2,"refresh_token_chunks":3},"stale_generations":[{"id":"old","id_token_chunks":4,"access_token_chunks":5,"refresh_token_chunks":6}]}"#
    );
}

#[test]
fn manifest_reads_back() {
    let m = CredentialManifest {
        version: 1,
        active_generation: generation("a\nb\u{1}\u{e9}", 64, 1, 65535),
        stale_generations: vec![generation("x", 1, 1, 1), generation("y", 2, 2, 2)],
    };
    let back = manifest_from_json(&manifest_to_json(&m)).unwrap();
    assert_eq!(back.version, 1);
    assert_eq!(back.active_generation.id, "a\nb\u{1}\u{e9}");
    assert_eq!(back.active_generation.id_token_chunks, 64);
    assert_eq!(back.active_generation.refresh_token_chunks, 65535);
    assert_eq!(back.stale_generations.len(), 2);
    assert_eq!(back.stale_generations[1].id, "y");
}

#[test]
fn manifest_without_stale_list_is_read() {
    let text = r#"{"version":1,"active_generation":{"id":"g","id_token_chunks":1,"access_token_chunks":1,"refresh_token_chunks":1}}"#;
    let m = manifest_from_json(text).unwrap();
    assert!(m.stale_generations.is_empty());
    assert!(manifest_from_json("{}").is_none());
    assert!(manifest_from_json("not json").is_none());
}

#[test]
fn legacy_token_records_are_read() {
    let t = tokens_from_json(r#"{"id_token":"i","access_token":"a","refresh_token":"r","account_id":"w"}"#).unwrap();
    assert_eq!(t.id_token, "i");
    assert_eq!(t.account_id.as_deref(), Some("w"));
    let t = tokens_from_json(r#"{"id_token":"i","access_token":"a","refresh_token":"r","account_id":null}"#).unwrap();
    assert!(t.account_id.is_none());
    let t = tokens_from_json(r#"{"id_token":"i","access_token":"a","refresh_token":"r"}"#).unwrap();
    assert!(t.account_id.is_none());
    assert!(tokens_from_json(r#"{"id_token":"i"}"#).is_none());
}

#[test]
fn keyring_records_are_classified() {
    let current = r#"{"version":1,"active_generation":{"id":"g","id_token_chunks":1,"access_token_chunks":1,"refresh_token_chunks":1},"stale_generations":[]}"#;
    assert!(matches!(classify_keyring_record("acct", current), Ok(ChatGptKeyringRecord::Current(_))));

    let newer = r#"{"version":2,"active_generation":{"id":"g","id_token_chunks":1,"access_token_chunks":1,"refresh_token_chunks":1},"stale_generations":[]}"#;
    assert!(matches!(
        classify_keyring_record("acct", newer),
        Err(StorageError::UnsupportedManifest { ref account_id }) if account_id == "acct"
    ));

    let blank_id = r#"{"version":1,"active_generation":{"id":"  ","id_token_chunks":1,"access_token_chunks":1,"refresh_token_chunks":1},"stale_generations":[]}"#;
    assert!(matches!(classify_keyring_record("acct", blank_id), Err(StorageError::UnsupportedManifest { .. })));

    let legacy = r#"{"id_token":"i","access_token":"a","refresh_token":"r","account_id":null}"#;
    assert!(matches!(classify_keyring_record("acct", legacy), Ok(ChatGptKeyringRecord::Legacy(_))));

    assert!(matches!(
        classify_keyring_record("acct", "garbage"),
        Err(StorageError::InvalidManifest { ref account_id }) if account_id == "acct"
    ));
}

#[test]
fn blank_means_only_whitespace() {
    assert!(blank(""));
    assert!(blank(" \t\n\u{3000}"));
    assert!(!blank(" x "));
}

#[test]
fn tokens_match_ignores_the_account_id() {
    let a = TokenData { id_token: "i".into(), access_token: "a".into(), refresh_token: "r".into(), account_id: None };
    let b = TokenData { account_id: Some("w".into()), ..a.clone() };
    assert!(tokens_match(&a, &b));
    let c = TokenData { refresh_token: "r2".into(), ..a.clone() };
    assert!(!tokens_match(&a, &c));
}

#[test]
fn id_token_claims_name_the_chatgpt_account() {
    let payload = r#"{"https://api.openai.com/auth":{"chatgpt_account_id":"workspace-a"}}"#;
    let encoded = base64::engine::general_purpose::URL_SAFE_NO_PAD.encode(payload);
    let token = format!("header.{encoded}.sig");
    assert_eq!(parse_chatgpt_id_token_claims(&token).account_id.as_deref(), Some("workspace-a"));
    assert_eq!(jwt_payload_segment(&token).as_deref(), Some(encoded.as_str()));
    assert!(parse_chatgpt_id_token_claims("opaque-id-token").account_id.is_none());
    assert!(parse_chatgpt_id_token_claims("a.!!!.c").account_id.is_none());
    let other = base64::engine::general_purpose::URL_SAFE_NO_PAD.encode(r#"{"sub":"x"}"#);
    assert!(parse_chatgpt_id_token_claims(&format!("h.{other}.s")).account_id.is_none());
    assert!(jwt_payload_segment("a.b").is_none());
    assert!(jwt_payload_segment("a.b.c.d").is_none());
}

#[test]
fn stale_generations_are_sorted_and_deduplicated() {
    let gens = vec![generation("b", 1, 1, 1), generation("a", 2, 2, 2), generation("b", 3, 3, 3)];
    let out = sort_dedup_by_id(&gens);
    let ids: Vec<&str> = out.iter().map(|g| g.id.as_str()).collect();
    assert_eq!(ids, vec!["a", "b"]);
    assert_eq!(out[1].id_token_chunks, 1);

    let current = Some(ChatGptKeyringRecord::Current(CredentialManifest {
        version: 1,
        active_generation: generation("m", 1, 1, 1),
        stale_generations: vec![generation("z", 1, 1, 1), generation("c", 1, 1, 1)],
    }));
    let stale = stale_generations_after(&current);
    let ids: Vec<&str> = stale.iter().map(|g| g.id.as_str()).collect();
    assert_eq!(ids, vec!["c", "m", "z"]);
    assert!(stale_generations_after(&None).is_empty());

    let m = plan_manifest(generation("new", 2, 2, 2), &current);
    assert_eq!(m.version, 1);
    assert_eq!(m.active_generation.id, "new");
    assert_eq!(m.stale_generations.len(), 3);
}

#[test]
fn config_paths_live_under_home() {
    assert!(matches!(get_config_dir(None), Err(StorageError::HomeDirectoryMissing)));
    assert!(matches!(get_accounts_file(None), Err(StorageError::HomeDirectoryMissing)));
    assert!(matches!(get_settings_file(None), Err(StorageError::HomeDirectoryMissing)));
    let dir = get_config_dir(Some("/home/u".into())).unwrap();
    assert_eq!(dir, format!("/home/u{}.codex-switcher", std::path::MAIN_SEPARATOR));
    let accounts = get_accounts_file(Some("/home/u".into())).unwrap();
    assert!(accounts.starts_with("/home/u"));
    assert!(accounts.ends_with("accounts.json"));
    let settings = get_settings_file(Some("/home/u/".into())).unwrap();
    assert!(settings.ends_with(".codex-switcher/settings.json") || settings.ends_with("settings.json"));
}

#[test]
fn keyring_outcomes_name_the_entry() {
    assert!(matches!(
        open_outcome("e", Err(keyring::Error::NoEntry)),
        Err(StorageError::CredentialOpen { ref entry }) if entry == "e"
    ));
    assert_eq!(read_outcome("e", Ok(Some("v".into()))).unwrap().as_deref(), Some("v"));
    assert!(read_outcome("e", Ok(None)).unwrap().is_none());
    assert!(matches!(
        read_outcome("e", Err(keyring::Error::NoStorageAccess(Box::new(std::fmt::Error)))),
        Err(StorageError::CredentialRead { ref entry }) if entry == "e"
    ));
    assert!(write_outcome("e", Ok(())).is_ok());
    assert!(matches!(
        write_outcome("e", Err(keyring::Error::TooLong("x".into(), 1))),
        Err(StorageError::CredentialWrite { ref entry }) if entry == "e"
    ));
    assert!(delete_outcome("e", Ok(())).is_ok());
    assert!(matches!(
        delete_outcome("e", Err(keyring::Error::Ambiguous(Vec::new()))),
        Err(StorageError::CredentialDelete { ref entry }) if entry == "e"
    ));
}

#[test]
fn manifests_are_read_whatever_the_whitespace() {
    let spaced = "{ \"version\": 1,\n  \"active_generation\": { \"id\": \"g 1\", \"id_token_chunks\": 1, \"access_token_chunks\": 2, \"refresh_token_chunks\": 3 },\n  \"stale_generations\": [ ]\n}\n";
    match classify_keyring_record("acct", spaced) {
        Ok(ChatGptKeyringRecord::Current(m)) => {
            assert_eq!(m.active_generation.id, "g 1");
            assert_eq!(m.active_generation.refresh_token_chunks, 3);
        }
        _ => panic!("expected a manifest"),
    }
    let legacy = "{\"id_token\": \"i\", \"access_token\": \"a\", \"refresh_token\": \"r\"}";
    assert!(matches!(classify_keyring_record("acct", legacy), Ok(ChatGptKeyringRecord::Legacy(_))));
    let split_number = "{\"version\":1,\"active_generation\":{\"id\":\"g\",\"id_token_chunks\":1 0,\"access_token_chunks\":1,\"refresh_token_chunks\":1}}";
    assert!(matches!(classify_keyring_record("acct", split_number), Err(StorageError::InvalidManifest { .. })));
    assert_eq!(compact_json(" { \"a b\" : [ 1 , \"\\\" x\" ] } ").as_deref(), Some("{\"a b\":[1,\"\\\" x\"]}"));
    assert!(compact_json("\"open").is_none());
    assert!(compact_json("tr ue").is_none());
}

#[test]
fn outcome_steps() {
    assert_eq!(join_chunks(&vec!["ab".into(), "".into(), "c".into()]), "abc");
    assert!(first_failure_of(vec![Ok(()), Ok(())]).is_ok());
    let first = first_failure_of(vec![
        Ok(()),
        Err(StorageError::CredentialDelete { entry: "x".into() }),
        Err(StorageError::CredentialDelete { entry: "y".into() }),
    ]);
    assert!(matches!(first, Err(StorageError::CredentialDelete { ref entry }) if entry == "x"));

    let gens = vec![generation("a", 1, 1, 1), generation("b", 1, 1, 1), generation("c", 1, 1, 1)];
    let kept = keep_failed(&gens, &vec![true, false, true]);
    let ids: Vec<&str> = kept.iter().map(|g| g.id.as_str()).collect();
    assert_eq!(ids, vec!["a", "c"]);

    let m = CredentialManifest { version: 1, active_generation: generation("m", 1, 1, 1), stale_generations: gens };
    assert!(cleaned_manifest(&m, vec![generation("a", 1, 1, 1), generation("b", 1, 1, 1), generation("c", 1, 1, 1)]).is_none());
    let cleaned = cleaned_manifest(&m, vec![generation("b", 1, 1, 1)]).unwrap();
    assert_eq!(cleaned.stale_generations.len(), 1);
    assert_eq!(cleaned.active_generation.id, "m");
    let record = Some(ChatGptKeyringRecord::Current(m));
    let listed: Vec<String> = listed_generations(&record).into_iter().map(|g| g.id).collect();
    assert_eq!(listed, vec!["a", "b", "c", "m"]);
    assert!(listed_generations(&None).is_empty());

    assert_eq!(stored_api_key("k", Ok(Some("sk".into()))).unwrap(), "sk");
    assert!(matches!(stored_api_key("k", Ok(Some(String::new()))), Err(StorageError::ApiKeyMissing { ref account_id }) if account_id == "k"));
    assert!(matches!(stored_api_key("k", Ok(None)), Err(StorageError::ApiKeyMissing { .. })));
    assert!(matches!(stored_api_key("k", Err(StorageError::CredentialRead { entry: "e".into() })), Err(StorageError::CredentialRead { .. })));

    let t = TokenData { id_token: "i".into(), access_token: "a".into(), refresh_token: "r".into(), account_id: Some("w".into()) };
    assert!(matches!(stored_chatgpt_tokens("c", Ok(Some((t.clone(), true)))), Ok((_, true))));
    assert!(matches!(stored_chatgpt_tokens("c", Ok(None)), Err(StorageError::ChatGptCredentialsMissing { ref account_id }) if account_id == "c"));

    let (auth, migrated) = apply_stored_tokens(&Some("old".into()), t.clone(), false);
    assert!(migrated);
    assert!(matches!(auth, AuthData::ChatGPT { ref account_id, ref refresh_token, .. } if account_id.as_deref() == Some("w") && refresh_token == "r"));
    let no_id = TokenData { account_id: None, ..t.clone() };
    let (auth, migrated) = apply_stored_tokens(&Some("old".into()), no_id.clone(), false);
    assert!(!migrated);
    assert!(matches!(auth, AuthData::ChatGPT { ref account_id, .. } if account_id.as_deref() == Some("old")));
    assert!(apply_stored_tokens(&None, no_id, true).1);

    assert!(matches!(tokens_for_record("c", None), Ok(None)));
    assert!(matches!(tokens_for_record("c", Some(ChatGptKeyringRecord::Legacy(t.clone()))), Ok(Some((_, true)))));

    let mut account = StoredAccount::new_api_key("K".into(), "sk".into());
    let err = clear_when_stored(&mut account, Err(StorageError::CredentialWrite { entry: "e".into() }));
    assert!(err.is_err());
    assert!(matches!(&account.auth_data, AuthData::ApiKey { key } if key == "sk"));
    clear_when_stored(&mut account, Ok(())).unwrap();
    assert!(matches!(&account.auth_data, AuthData::ApiKey { key } if key.is_empty()));
}

#[test]
fn manifests_are_read_in_any_json_layout() {
    let reordered = r#"{"stale_generations":[{"refresh_token_chunks":6,"id":"old","access_token_chunks":5,"id_token_chunks":4}],"extra":{"x":[1,2,{"y":null}]},"active_generation":{"id_token_chunks":1,"id":"g\u0031","refresh_token_chunks":3,"access_token_chunks":2},"version":1}"#;
    match classify_keyring_record("acct", reordered) {
        Ok(ChatGptKeyringRecord::Current(m)) => {
            assert_eq!(m.active_generation.id, "g1");
            assert_eq!(m.active_generation.access_token_chunks, 2);
            assert_eq!(m.stale_generations.len(), 1);
            assert_eq!(m.stale_generations[0].refresh_token_chunks, 6);
        }
        _ => panic!("expected a manifest"),
    }
    let positional = r#"[1,["g",1,1,1]]"#;
    assert!(matches!(classify_keyring_record("acct", positional), Ok(ChatGptKeyringRecord::Current(_))));
    let newer = r#"{"active_generation":{"id":"g","id_token_chunks":1,"access_token_chunks":1,"refresh_token_chunks":1},"version":7}"#;
    assert!(matches!(classify_keyring_record("acct", newer), Err(StorageError::UnsupportedManifest { .. })));
    let legacy = r#"{"refresh_token":"r","unknown":true,"access_token":"a","id_token":"\u0069"}"#;
    match classify_keyring_record("acct", legacy) {
        Ok(ChatGptKeyringRecord::Legacy(t)) => {
            assert_eq!(t.id_token, "i");
            assert!(t.account_id.is_none());
        }
        _ => panic!("expected legacy tokens"),
    }
    let too_big = r#"{"version":1,"active_generation":{"id":"g","id_token_chunks":70000,"access_token_chunks":1,"refresh_token_chunks":1}}"#;
    assert!(matches!(classify_keyring_record("acct", too_big), Err(StorageError::InvalidManifest { .. })));
    let fraction = r#"{"version":1.0,"active_generation":{"id":"g","id_token_chunks":1,"access_token_chunks":1,"refresh_token_chunks":1}}"#;
    assert!(matches!(classify_keyring_record("acct", fraction), Err(StorageError::InvalidManifest { .. })));
}

#[test]
fn plans_for_the_credential_store() {
    let writes = chunk_writes("acct", "gen", "id-token", &vec!["ab".into(), "c".into()]);
    assert_eq!(writes, vec![
        ("chatgpt:acct:gen:id-token:0".to_string(), "ab".to_string()),
        ("chatgpt:acct:gen:id-token:1".to_string(), "c".to_string()),
    ]);
    let entries = generation_entries("acct", &generation("gen", 2, 1, 1));
    assert_eq!(entries, vec![
        "chatgpt:acct:gen:id-token:0".to_string(),
        "chatgpt:acct:gen:id-token:1".to_string(),
        "chatgpt:acct:gen:access-token:0".to_string(),
        "chatgpt:acct:gen:refresh-token:0".to_string(),
    ]);
    let t = tokens_from_chunks(&vec!["i".into(), "d".into()], &vec!["a".into()], &vec!["r".into(), "".into()]);
    assert_eq!((t.id_token.as_str(), t.access_token.as_str(), t.refresh_token.as_str()), ("id", "a", "r"));
    assert!(t.account_id.is_none());

    let tokens = TokenData { id_token: "i".into(), access_token: "a".into(), refresh_token: "r".into(), account_id: None };
    let current = Some(ChatGptKeyringRecord::Current(CredentialManifest {
        version: 1,
        active_generation: generation("g", 1, 1, 1),
        stale_generations: vec![],
    }));
    assert!(reuses_active_generation(&current, &Some(tokens.clone()), &tokens));
    let other = TokenData { refresh_token: "r2".into(), ..tokens.clone() };
    assert!(!reuses_active_generation(&current, &Some(other), &tokens));
    assert!(!reuses_active_generation(&None, &None, &tokens));

    assert!(matches!(secret_of(&AuthData::ApiKey { key: "sk".into() }), Some(StoredSecret::ApiKey(ref k)) if k == "sk"));
    assert!(secret_of(&AuthData::ApiKey { key: String::new() }).is_none());
    let auth = AuthData::ChatGPT { id_token: String::new(), access_token: "a".into(), refresh_token: String::new(), account_id: Some("w".into()) };
    assert!(matches!(secret_of(&auth), Some(StoredSecret::Tokens(ref t)) if t.access_token == "a" && t.account_id.as_deref() == Some("w")));
    assert!(legacy_rewrite(&auth, false).is_none());
    assert!(matches!(legacy_rewrite(&auth, true), Some(ref t) if t.access_token == "a"));
}
