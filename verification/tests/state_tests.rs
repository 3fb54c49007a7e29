use cfdrop::state::TempAccount;
use std::time::{SystemTime, UNIX_EPOCH};

const MINUTE: i64 = 60_000;

fn now_ms() -> i64 {
    SystemTime::now().duration_since(UNIX_EPOCH).unwrap().as_millis() as i64
}

fn account(acct_mins: i64, claim_mins: i64) -> TempAccount {
    let now = now_ms();
    TempAccount {
        account_id: "acc".into(),
        account_name: "name".into(),
        api_token: "tok".into(),
        account_expires_at: now + acct_mins * MINUTE,
        claim_url: "https://dash.cloudflare.com/claim-preview?claimToken=x".into(),
        claim_expires_at: now + claim_mins * MINUTE,
    }
}

#[test]
fn usable_when_both_windows_open() {
    let a = account(50, 50);
    assert!(a.is_usable(now_ms(), 5 * MINUTE));
}

#[test]
fn unusable_when_claim_window_nearly_closed() {
    let a = account(50, 3);
    assert!(!a.is_usable(now_ms(), 5 * MINUTE));
}

#[test]
fn unusable_when_account_expired() {
    let a = account(-1, 50);
    assert!(!a.is_usable(now_ms(), 5 * MINUTE));
}

#[test]
fn usability_boundary_is_strict() {
    let mut a = account(0, 0);
    a.account_expires_at = 1_000;
    a.claim_expires_at = 2_000;
    assert!(a.is_usable(900, 99));
    assert!(!a.is_usable(900, 100));
    assert!(!a.is_usable(i64::MAX, i64::MAX));
    assert!(a.is_usable(i64::MIN, i64::MIN));
}
