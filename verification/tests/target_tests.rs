use cfdrop::target::{choose_account, describe, may_overwrite, resolve, Inputs, Mode, TargetError};

fn no_file(_: &str) -> Result<String, String> {
    Err("no file in tests".to_string())
}

fn base() -> Inputs {
    Inputs::default()
}

#[test]
fn default_is_temporary_even_with_token_in_env() {
    let mut i = base();
    i.env_api_token = Some("tok".into());
    assert_eq!(resolve(&i, no_file).unwrap(), Mode::Temporary);
}

#[test]
fn own_flag_with_env_token_infers_account_later() {
    let mut i = base();
    i.own_flag = true;
    i.env_api_token = Some("tok".into());
    assert_eq!(
        resolve(&i, no_file).unwrap(),
        Mode::Own {
            account_id: None,
            api_token: "tok".into(),
            token_source: "CLOUDFLARE_API_TOKEN"
        }
    );
}

#[test]
fn account_flag_alone_switches_to_own() {
    let mut i = base();
    i.account_flag = Some("abc".into());
    i.env_api_token = Some("tok".into());
    match resolve(&i, no_file).unwrap() {
        Mode::Own { account_id, .. } => assert_eq!(account_id.as_deref(), Some("abc")),
        m => panic!("{m:?}"),
    }
}

#[test]
fn env_account_id_switches_to_own() {
    let mut i = base();
    i.env_account_id = Some("envacc".into());
    i.env_api_token = Some("tok".into());
    match resolve(&i, no_file).unwrap() {
        Mode::Own { account_id, .. } => assert_eq!(account_id.as_deref(), Some("envacc")),
        m => panic!("{m:?}"),
    }
}

#[test]
fn account_flag_beats_env_account() {
    let mut i = base();
    i.account_flag = Some("flag".into());
    i.env_account_id = Some("env".into());
    i.env_api_token = Some("tok".into());
    match resolve(&i, no_file).unwrap() {
        Mode::Own { account_id, .. } => assert_eq!(account_id.as_deref(), Some("flag")),
        m => panic!("{m:?}"),
    }
}

#[test]
fn own_without_token_errors_instead_of_falling_back() {
    let mut i = base();
    i.own_flag = true;
    let err = resolve(&i, no_file).unwrap_err().message();
    assert!(err.contains("no API token"), "{err}");
    assert!(err.contains("Not falling back"), "{err}");
}

#[test]
fn token_file_wins_over_env_and_is_trimmed() {
    let mut i = base();
    i.own_flag = true;
    i.env_api_token = Some("envtok".into());
    i.token_file = Some("/x".into());
    let m = resolve(&i, |_| Ok("  filetok\n".into())).unwrap();
    match m {
        Mode::Own { api_token, token_source, .. } => {
            assert_eq!(api_token, "filetok");
            assert_eq!(token_source, "--token-file");
        }
        m => panic!("{m:?}"),
    }
}

#[test]
fn empty_token_file_errors() {
    let mut i = base();
    i.own_flag = true;
    i.token_file = Some("/x".into());
    assert!(resolve(&i, |_| Ok("  \n".into())).is_err());
}

#[test]
fn temporary_overrides_env_account() {
    let mut i = base();
    i.temporary_flag = true;
    i.env_account_id = Some("acc".into());
    i.env_api_token = Some("tok".into());
    assert_eq!(resolve(&i, no_file).unwrap(), Mode::Temporary);
}

#[test]
fn temporary_conflicts_with_own_flags() {
    let mut i = base();
    i.temporary_flag = true;
    i.own_flag = true;
    assert!(resolve(&i, no_file).is_err());
}

fn accts(ids: &[&str]) -> Vec<(String, String)> {
    ids.iter().map(|s| (s.to_string(), format!("name-{s}"))).collect()
}

#[test]
fn choose_single_account_automatically() {
    assert_eq!(choose_account(&accts(&["a"]), None).unwrap().0, "a");
}

#[test]
fn choose_requires_explicit_when_several() {
    let err = choose_account(&accts(&["a", "b"]), None).unwrap_err().message();
    assert!(err.contains("--account"), "{err}");
    assert!(err.contains("a (name-a)"), "{err}");
}

#[test]
fn choose_requested_must_be_visible() {
    assert_eq!(choose_account(&accts(&["a", "b"]), Some("b")).unwrap().0, "b");
    assert!(choose_account(&accts(&["a"]), Some("zzz")).is_err());
}

#[test]
fn choose_none_visible_errors() {
    assert!(choose_account(&[], None).is_err());
}

#[test]
fn overwrite_rule() {
    let ours = vec!["cfdrop".to_string()];
    let theirs = vec!["prod".to_string()];
    let none: Vec<String> = vec![];
    assert!(may_overwrite(None, false, "cfdrop"), "new name is free");
    assert!(may_overwrite(Some(&ours), false, "cfdrop"), "redeploying our own site");
    assert!(!may_overwrite(Some(&theirs), false, "cfdrop"), "someone else's Worker");
    assert!(!may_overwrite(Some(&none), false, "cfdrop"), "untagged Worker is not ours");
    assert!(may_overwrite(Some(&theirs), true, "cfdrop"), "--force overrides");
}

#[test]
fn from_env_treats_blank_values_as_unset() {
    let i = Inputs::from_env(
        false,
        false,
        None,
        None,
        Some("  ".to_string()),
        Some("tok".to_string()),
    );
    assert_eq!(i.env_account_id, None);
    assert_eq!(i.env_api_token.as_deref(), Some("tok"));
    assert_eq!(resolve(&i, no_file).unwrap(), Mode::Temporary);
}

#[test]
fn account_id_is_trimmed_and_blank_means_infer() {
    let mut i = base();
    i.own_flag = true;
    i.env_api_token = Some("tok".into());
    i.account_flag = Some("  acc1 ".into());
    match resolve(&i, no_file).unwrap() {
        Mode::Own { account_id, .. } => assert_eq!(account_id.as_deref(), Some("acc1")),
        m => panic!("{m:?}"),
    }
    i.account_flag = Some("   ".into());
    match resolve(&i, no_file).unwrap() {
        Mode::Own { account_id, .. } => assert_eq!(account_id, None),
        m => panic!("{m:?}"),
    }
}

#[test]
fn unreadable_token_file_reports_path_and_reason() {
    let mut i = base();
    i.own_flag = true;
    i.token_file = Some("/x".into());
    let err = resolve(&i, no_file).unwrap_err();
    assert_eq!(
        err,
        TargetError::TokenFileUnreadable { path: "/x".into(), reason: "no file in tests".into() }
    );
    assert_eq!(err.message(), "reading --token-file /x: no file in tests");
}

#[test]
fn error_messages_match_each_case() {
    let mut i = base();
    i.temporary_flag = true;
    i.account_flag = Some("a".into());
    assert_eq!(
        resolve(&i, no_file).unwrap_err().message(),
        "--temporary cannot be combined with --own or --account"
    );
    let mut j = base();
    j.own_flag = true;
    j.token_file = Some("/t".into());
    assert_eq!(resolve(&j, |_| Ok(" ".into())).unwrap_err().message(), "--token-file /t is empty");
    assert_eq!(
        choose_account(&accts(&["a"]), Some("zzz")).unwrap_err().message(),
        "the token has no access to account zzz. It can see: a (name-a)"
    );
    assert_eq!(
        choose_account(&[], None).unwrap_err().message(),
        "the token can see no accounts \u{2014} check its Account Resources scope"
    );
    assert_eq!(
        choose_account(&accts(&["a", "b"]), None).unwrap_err().message(),
        "the token can see 2 accounts; pick one with --account <id> (or CLOUDFLARE_ACCOUNT_ID): a (name-a), b (name-b)"
    );
}

#[test]
fn describe_lists_accounts_or_none() {
    assert_eq!(describe(&[]), "(none)");
    assert_eq!(describe(&accts(&["x", "y", "z"])), "x (name-x), y (name-y), z (name-z)");
}

#[test]
fn token_file_is_read_only_when_needed() {
    let mut i = base();
    i.token_file = Some("/x".into());
    // not own mode: the reader must not be called
    assert_eq!(resolve(&i, |_| panic!("read")).unwrap(), Mode::Temporary);
}
