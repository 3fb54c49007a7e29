use cfdrop::deploy::{
    basic_auth_token, check_fresh, deployed_url, is_affirmative, minutes_left, own_env_summary, own_target,
    probe_step, relay_push_url, reusable_account, sanitize_name, script_name_for, warmup_url, guard_script, deploy_preflight, DeployError, ProbeStep,
};
use cfdrop::state::TempAccount;
use cfdrop::target::Mode;

#[test]
fn sanitizes_names() {
    assert_eq!(sanitize_name("My Site!"), "my-site");
    assert_eq!(sanitize_name("path.to.dir"), "path-to-dir");
    assert_eq!(sanitize_name("---"), "cfdrop-site");
    assert_eq!(sanitize_name("Already-ok-123"), "already-ok-123");
}

#[test]
fn sanitize_collapses_trims_and_truncates() {
    assert_eq!(sanitize_name("  a -- b  "), "a-b");
    assert_eq!(sanitize_name(""), "cfdrop-site");
    assert_eq!(sanitize_name("Caf\u{e9} \u{212a}elvin"), "caf-kelvin");
    let long = "x".repeat(60);
    assert_eq!(sanitize_name(&long), "x".repeat(54));
    let dashed = format!("{}-yy", "a".repeat(53));
    assert_eq!(sanitize_name(&dashed), format!("{}-", "a".repeat(53)));
}

#[test]
fn script_name_falls_back_to_directory() {
    assert_eq!(script_name_for(Some("Docs Site"), Some("dir")), "docs-site");
    assert_eq!(script_name_for(None, Some("My_Dir")), "my-dir");
    assert_eq!(script_name_for(None, None), "cfdrop-site");
}

#[test]
fn fresh_only_with_temporary() {
    let own = Mode::Own { account_id: None, api_token: "t".into(), token_source: "CLOUDFLARE_API_TOKEN" };
    assert_eq!(check_fresh(true, &own), Err(DeployError::FreshWithOwn));
    assert_eq!(check_fresh(false, &own), Ok(()));
    assert_eq!(check_fresh(true, &Mode::Temporary), Ok(()));
    assert_eq!(
        DeployError::FreshWithOwn.message(),
        "--fresh only applies to temporary accounts; drop it when using --own/--account"
    );
}

#[test]
fn basic_auth_is_checked_and_encoded() {
    assert_eq!(basic_auth_token(None), Ok(None));
    assert_eq!(basic_auth_token(Some("user:pass")), Ok(Some("dXNlcjpwYXNz".to_string())));
    assert_eq!(basic_auth_token(Some("a:b:c")), Ok(Some("YTpiOmM=".to_string())));
    assert_eq!(basic_auth_token(Some("nocolon")), Err(DeployError::AuthNotUserPass));
    assert_eq!(basic_auth_token(Some(":pass")), Err(DeployError::AuthEmptyPart));
    assert_eq!(basic_auth_token(Some("user:")), Err(DeployError::AuthEmptyPart));
}

fn account(acct: i64, claim: i64) -> TempAccount {
    TempAccount {
        account_id: "acc".into(),
        account_name: "n".into(),
        api_token: "t".into(),
        account_expires_at: acct,
        claim_url: "u".into(),
        claim_expires_at: claim,
    }
}

#[test]
fn cached_account_reused_only_when_usable_and_not_fresh() {
    assert!(reusable_account(false, Some(account(10_000, 10_000)), 0, 5_000).is_some());
    assert!(reusable_account(true, Some(account(10_000, 10_000)), 0, 5_000).is_none());
    assert!(reusable_account(false, Some(account(10_000, 4_000)), 0, 5_000).is_none());
    assert!(reusable_account(false, None, 0, 0).is_none());
}

#[test]
fn terms_prompt_answers() {
    assert!(is_affirmative("y\n"));
    assert!(is_affirmative("  YES "));
    assert!(!is_affirmative("no"));
    assert!(!is_affirmative(""));
    assert!(!is_affirmative("yes please"));
}

#[test]
fn relay_and_site_urls() {
    assert_eq!(relay_push_url("https://relay.example//"), "https://relay.example/push");
    assert_eq!(relay_push_url("https://relay.example"), "https://relay.example/push");
    assert_eq!(deployed_url("docs", "me"), "https://docs.me.workers.dev");
}

#[test]
fn own_env_status_lines() {
    assert_eq!(
        own_env_summary(Some("t"), Some("acc")),
        "token + account acc set \u{2192} `deploy` goes to your own account"
    );
    assert_eq!(
        own_env_summary(Some("t"), Some("")),
        "token set, no account \u{2192} `deploy` is still temporary (add --own or CLOUDFLARE_ACCOUNT_ID)"
    );
    assert_eq!(
        own_env_summary(None, Some("acc")),
        "account acc set but no CLOUDFLARE_API_TOKEN \u{2192} `deploy` will error"
    );
    assert_eq!(own_env_summary(Some(""), None), "not set \u{2192} `deploy` uses a temporary account");
}

#[test]
fn minutes_left_never_negative() {
    assert_eq!(minutes_left(3_600_000, 0), 60);
    assert_eq!(minutes_left(119_999, 0), 1);
    assert_eq!(minutes_left(0, 5), 0);
}

#[test]
fn probing_steps() {
    assert_eq!(probe_step(true, 100_000, 30_000), ProbeStep::Live);
    assert_eq!(probe_step(false, 30_000, 30_000), ProbeStep::GiveUp);
    assert_eq!(probe_step(false, 1_000, 30_000), ProbeStep::Retry);
}

#[test]
fn rm_needs_own_mode() {
    assert_eq!(own_target(Mode::Temporary), Err(DeployError::RmNeedsOwn));
    let own = Mode::Own { account_id: Some("a".into()), api_token: "t".into(), token_source: "--token-file" };
    assert_eq!(own_target(own), Ok((Some("a".to_string()), "t".to_string())));
}

fn has_worker_name_shape(name: &str) -> bool {
    let chars: Vec<char> = name.chars().collect();
    !chars.is_empty()
        && chars.len() <= 54
        && chars.iter().all(|c| c.is_ascii_alphanumeric() || *c == '-')
        && !name.contains("--")
        && chars[0] != '-'
        && (chars.len() == 54 || *chars.last().unwrap() != '-')
}

#[test]
fn sanitized_names_are_always_valid_worker_names() {
    let long_dashed = format!("{}!x", "b".repeat(53));
    for raw in ["", "-", "--a--", "Héllo Wörld", "日本語", "a_b.c d", "UPPER", long_dashed.as_str()] {
        let name = sanitize_name(raw);
        assert!(has_worker_name_shape(&name), "{raw:?} gave {name:?}");
    }
    assert_eq!(sanitize_name("UPPER_case.Site"), "upper-case-site");
    assert_eq!(sanitize_name(&long_dashed), format!("{}-", "b".repeat(53)));
}

#[test]
fn warmup_probe_is_cache_busted() {
    assert_eq!(
        warmup_url("https://s.sub.workers.dev", 3),
        "https://s.sub.workers.dev/?cfdrop-warmup=3"
    );
    assert_eq!(warmup_url("u", 0), "u/?cfdrop-warmup=0");
    assert_eq!(warmup_url("u", 4294967295), "u/?cfdrop-warmup=4294967295");
}

#[test]
fn sanitizing_twice_changes_nothing() {
    for raw in ["My Site!", "path.to.dir", "---", "Caf\u{e9} \u{212a}elvin", "a__b"] {
        let once = sanitize_name(raw);
        assert_eq!(sanitize_name(&once), once);
    }
}

#[test]
fn guard_script_checks_the_credential() {
    let s = guard_script("dTpw");
    assert!(s.starts_with("export default { async fetch(request, env) {"));
    assert!(s.contains(r#"request.headers.get("Authorization") !== "Basic dTpw""#));
    assert!(s.contains("status: 401"));
    assert!(s.contains(r#""WWW-Authenticate": 'Basic realm="cfdrop"'"#));
    assert!(s.ends_with("return env.ASSETS.fetch(request);\n} };\n"));
}

#[test]
fn preflight_refuses_fresh_before_checking_auth() {
    let own = Mode::Own { account_id: None, api_token: "t".into(), token_source: "CLOUDFLARE_API_TOKEN" };
    assert_eq!(deploy_preflight(true, &own, Some("nocolon")), Err(DeployError::FreshWithOwn));
    assert_eq!(deploy_preflight(false, &own, Some("nocolon")), Err(DeployError::AuthNotUserPass));
    assert_eq!(deploy_preflight(true, &Mode::Temporary, None), Ok(None));
    assert_eq!(deploy_preflight(false, &Mode::Temporary, Some("u:p")), Ok(Some("dTpw".to_string())));
}
