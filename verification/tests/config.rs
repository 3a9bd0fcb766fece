use togglite::config::accept_token;
use togglite::config::{config_from_stored, sealed_token, stored_from_config, token_to_seal, Config, Stored};

#[test]
fn missing_file_is_default() {
    // a file that cannot be read loads as an empty record
    let cfg = config_from_stored(Stored::default(), None);
    assert!(cfg.api_token.is_empty());
    assert!(cfg.language.is_none());
    assert!(!cfg.legacy_plaintext);
}

fn sample() -> Config {
    Config {
        api_token: " s3cret-token ".into(),
        popup_x: Some(10),
        popup_y: Some(20),
        language: Some("ja".into()),
        legacy_plaintext: false,
        workspace_id: Some(5),
    }
}

#[test]
fn token_is_encrypted_on_disk_and_round_trips() {
    let cfg = sample();
    let plain = token_to_seal(&cfg).unwrap();
    assert_eq!(plain, b"s3cret-token".to_vec());
    // stand-in for DPAPI: any reversible transformation
    let sealed: Vec<u8> = plain.iter().map(|b| b ^ 0x5a).collect();
    let stored = stored_from_config(&cfg, Some(sealed.clone())).unwrap();
    assert!(stored.api_token.is_empty());
    assert!(stored.api_token_dpapi.is_some());
    assert_eq!(sealed_token(&stored), Some(sealed.clone()));
    let opened: Vec<u8> = sealed.iter().map(|b| b ^ 0x5a).collect();
    let back = config_from_stored(stored, Some(opened));
    assert_eq!(back.api_token, "s3cret-token");
    assert_eq!((back.popup_x, back.popup_y), (Some(10), Some(20)));
    assert_eq!(back.language.as_deref(), Some("ja"));
    assert_eq!(back.workspace_id, Some(5));
    assert!(!back.legacy_plaintext);
}

#[test]
fn legacy_plaintext_is_read_and_flagged() {
    let stored = Stored { api_token: "old-plain".into(), popup_x: Some(1), ..Stored::default() };
    let cfg = config_from_stored(stored, None);
    assert_eq!(cfg.api_token, "old-plain");
    assert!(cfg.legacy_plaintext);
    // saving migrates it: stand-in for DPAPI, any reversible transformation
    let seal = |b: &Vec<u8>| -> Vec<u8> { b.iter().map(|x| x ^ 0x5a).collect() };
    let sealed = seal(&token_to_seal(&cfg).unwrap());
    let again = stored_from_config(&cfg, Some(sealed)).unwrap();
    assert!(again.api_token.is_empty());
    assert!(again.api_token_dpapi.is_some());
    assert!(!again.api_token_dpapi.as_deref().unwrap().contains("old-plain"));
    let opened = seal(&sealed_token(&again).unwrap());
    let back = config_from_stored(again, Some(opened));
    assert_eq!(back.api_token, "old-plain");
    assert!(!back.legacy_plaintext);
    // without encryption the token is not written at all
    assert!(stored_from_config(&cfg, None).is_none());
}

#[test]
fn language_is_optional_and_omitted_when_unset() {
    let s = stored_from_config(&Config::default(), Some(vec![1, 2, 3])).unwrap();
    assert!(s.language.is_none());
    assert!(stored_from_config(&Config::default(), None).is_some());
    let empty = Stored { language: Some("".into()), ..Stored::default() };
    assert!(config_from_stored(empty, None).language.is_none());
    assert!(s.api_token_dpapi.is_none());
    assert!(token_to_seal(&Config::default()).is_none());
    let blank = Stored { language: Some("  ".into()), ..Stored::default() };
    assert!(config_from_stored(blank, None).language.is_none());
}

#[test]
fn undecryptable_token_loads_as_empty() {
    let stored = Stored { api_token_dpapi: Some("!!".into()), ..Stored::default() };
    assert_eq!(sealed_token(&stored), None);
    let cfg = config_from_stored(stored, None);
    assert!(cfg.api_token.is_empty());
    assert!(!cfg.legacy_plaintext);
    let stored = Stored { api_token_dpapi: Some("AAAA".into()), ..Stored::default() };
    assert!(config_from_stored(stored, Some(vec![0xff, 0xfe])).api_token.is_empty());
}

#[test]
fn saving_a_token_keeps_the_workspace_only_for_the_same_account() {
    let mut cfg = Config::default();
    cfg.api_token = "abc".to_string();
    cfg.workspace_id = Some(42);
    assert_eq!(accept_token(&mut cfg, "   "), None);
    assert_eq!((cfg.api_token.as_str(), cfg.workspace_id), ("abc", Some(42)));
    assert_eq!(accept_token(&mut cfg, " abc \n"), Some(false));
    assert_eq!((cfg.api_token.as_str(), cfg.workspace_id), ("abc", Some(42)));
    assert_eq!(accept_token(&mut cfg, "xyz"), Some(true));
    assert_eq!((cfg.api_token.as_str(), cfg.workspace_id), ("xyz", None));
}
