//! The cached temporary account, reused across deploys while its
//! credentials and claim URL remain valid.

use vstd::prelude::*;

verus! {

/// A provisioned temporary account. Times are milliseconds since the Unix
/// epoch (UTC).
#[derive(Debug, Clone)]
pub struct TempAccount {
    pub account_id: String,
    pub account_name: String,
    pub api_token: String,
    pub account_expires_at: i64,
    pub claim_url: String,
    pub claim_expires_at: i64,
}

/// Whether both the account and its claim window outlast `now + margin`.
pub open spec fn usable_spec(account_expires_at: int, claim_expires_at: int, now: int, margin: int) -> bool {
    account_expires_at > now + margin && claim_expires_at > now + margin
}

impl TempAccount {
    /// Usable if both the account credentials and the claim window are still
    /// valid, with a safety margin so that a deploy does not go into an
    /// account that expires mid-upload.
    pub fn is_usable(&self, now: i64, margin: i64) -> (r: bool)
        ensures
            r == usable_spec(self.account_expires_at as int, self.claim_expires_at as int, now as int, margin as int),
    {
        let limit = now as i128 + margin as i128;
        (self.account_expires_at as i128) > limit && (self.claim_expires_at as i128) > limit
    }
}

/// A smaller safety margin, or an earlier moment, never turns a usable
/// account unusable.
pub proof fn lemma_usable_monotonic(
    account_expires_at: int,
    claim_expires_at: int,
    now: int,
    margin: int,
    earlier: int,
    smaller: int,
)
    requires
        usable_spec(account_expires_at, claim_expires_at, now, margin),
        earlier <= now,
        smaller <= margin,
    ensures
        usable_spec(account_expires_at, claim_expires_at, earlier, smaller),
{
}

} // verus!
