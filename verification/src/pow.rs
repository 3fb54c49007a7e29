//! Proof-of-work solver for temporary account provisioning.
//!
//! The challenge is a sequential SHA-256 checkpoint chain:
//! - checkpoint 0 is SHA-256(seed)
//! - each of the `k` segments hashes the previous checkpoint `g` times in a
//!   row and appends the result
//! - the solution is the standard base64 of the concatenated k+1 checkpoints

use vstd::prelude::*;
use crate::encoding::{base64_encode, base64_standard, base64url_decode, base64url_unpadded_decoding, sha256, sha256_digest};
use crate::text::{chars_of, string_of};

verus! {

/// The largest `k * g` a challenge may ask for.
pub const MAX_WORK: u64 = 64_000_000;

/// A proof-of-work challenge.
pub struct Challenge {
    /// base64url text that must decode to 32 bytes (`=` padding tolerated)
    pub seed: String,
    pub k: u64,
    pub g: u64,
}

/// Why a challenge was refused.
#[derive(Debug, Clone, PartialEq, Eq)]
pub enum PowError {
    /// The seed is not base64url text.
    SeedNotBase64,
    /// The seed decodes to this many bytes instead of 32.
    SeedLength(usize),
    /// `k` or `g` is zero.
    ZeroParameter,
    /// `k * g` exceeds [`MAX_WORK`].
    TooMuchWork { k: u64, g: u64 },
}

/// `s` without its trailing `=` characters (`trim_end_matches('=')`).
pub open spec fn strip_padding(s: Seq<char>) -> Seq<char>
    decreases s.len(),
{
    if s.len() > 0 && s.last() == '=' {
        strip_padding(s.drop_last())
    } else {
        s
    }
}

/// `h` hashed `n` times in a row.
pub open spec fn sha256_iterated(h: Seq<u8>, n: nat) -> Seq<u8>
    decreases n,
{
    if n == 0 {
        h
    } else {
        sha256_digest(sha256_iterated(h, (n - 1) as nat))
    }
}

/// Checkpoint `i` of the chain for `seed`, `g` hashes per segment.
pub open spec fn checkpoint(seed: Seq<u8>, g: nat, i: nat) -> Seq<u8>
    decreases i,
{
    if i == 0 {
        sha256_digest(seed)
    } else {
        sha256_iterated(checkpoint(seed, g, (i - 1) as nat), g)
    }
}

/// Checkpoints 0 through `k`, concatenated.
pub open spec fn checkpoints(seed: Seq<u8>, k: nat, g: nat) -> Seq<u8>
    decreases k,
{
    if k == 0 {
        checkpoint(seed, g, 0)
    } else {
        checkpoints(seed, (k - 1) as nat, g) + checkpoint(seed, g, k)
    }
}

/// The solution of a challenge, or why it is refused.
pub open spec fn solve_spec(seed: Seq<char>, k: nat, g: nat) -> Result<Seq<char>, PowError> {
    match base64url_unpadded_decoding(strip_padding(seed)) {
        None => Err(PowError::SeedNotBase64),
        Some(bytes) => if bytes.len() != 32 {
            Err(PowError::SeedLength(bytes.len() as usize))
        } else if k == 0 || g == 0 {
            Err(PowError::ZeroParameter)
        } else if k * g > MAX_WORK {
            Err(PowError::TooMuchWork { k: k as u64, g: g as u64 })
        } else {
            Ok(base64_standard(checkpoints(bytes, k, g)))
        },
    }
}

/// The text shown for a refused challenge.
pub open spec fn pow_error_message(e: PowError) -> Seq<char> {
    match e {
        PowError::SeedNotBase64 => "challenge seed is not valid base64url"@,
        PowError::SeedLength(n) => "challenge seed must decode to 32 bytes, got "@ + crate::text::decimal(n as nat),
        PowError::ZeroParameter => "challenge k and g must be positive integers"@,
        PowError::TooMuchWork { k, g } => "challenge work factor k*g = "@ + crate::text::decimal((k * g) as nat)
            + " exceeds the "@ + crate::text::decimal(MAX_WORK as nat) + " safety cap"@,
    }
}

impl PowError {
    /// The text shown for this error.
    pub fn message(&self) -> (m: String)
        ensures
            m@ == pow_error_message(*self),
    {
        let mut m = String::new();
        match self {
            PowError::SeedNotBase64 => {
                crate::text::push_str(&mut m, "challenge seed is not valid base64url");
            },
            PowError::SeedLength(n) => {
                crate::text::push_str(&mut m, "challenge seed must decode to 32 bytes, got ");
                let d = crate::text::decimal_string(*n as u128);
                crate::text::push_str(&mut m, d.as_str());
            },
            PowError::ZeroParameter => {
                crate::text::push_str(&mut m, "challenge k and g must be positive integers");
            },
            PowError::TooMuchWork { k, g } => {
                crate::text::push_str(&mut m, "challenge work factor k*g = ");
                let kk = *k as u128;
                let gg = *g as u128;
                assert(kk * gg <= 0xffff_ffff_ffff_ffffu128 * 0xffff_ffff_ffff_ffffu128) by (nonlinear_arith)
                    requires
                        kk <= 0xffff_ffff_ffff_ffffu128,
                        gg <= 0xffff_ffff_ffff_ffffu128,
                ;
                let d = crate::text::decimal_string(kk * gg);
                crate::text::push_str(&mut m, d.as_str());
                crate::text::push_str(&mut m, " exceeds the ");
                let cap = crate::text::decimal_string(MAX_WORK as u128);
                crate::text::push_str(&mut m, cap.as_str());
                crate::text::push_str(&mut m, " safety cap");
            },
        }
        m
    }
}

fn strip_padding_str(s: &str) -> (r: String)
    ensures
        r@ == strip_padding(s@),
{
    let v = chars_of(s);
    let mut n = v.len();
    assert(v@.take(n as int) =~= v@);
    while n > 0 && v[n - 1] == '='
        invariant
            n <= v@.len(),
            v@ == s@,
            strip_padding(s@) == strip_padding(v@.take(n as int)),
        decreases n,
    {
        assert(v@.take(n as int).drop_last() =~= v@.take(n - 1));
        n = n - 1;
    }
    string_of(&v.as_slice()[0..n])
}

/// With every checkpoint 32 bytes long, checkpoint `i` is bytes `32 i` to
/// `32 i + 32` of the chain.
pub proof fn lemma_checkpoint_layout(seed: Seq<u8>, k: nat, g: nat)
    requires
        forall|i: int| 0 <= i <= k ==> (#[trigger] checkpoint(seed, g, i as nat)).len() == 32,
    ensures
        checkpoints(seed, k, g).len() == 32 * (k + 1),
        forall|i: int| 0 <= i <= k ==> checkpoints(seed, k, g).subrange(32 * i, 32 * i + 32) == #[trigger] checkpoint(seed, g, i as nat),
    decreases k,
{
    let kk: int = k as int;
    assert(checkpoint(seed, g, kk as nat).len() == 32);
    if k == 0 {
        assert(checkpoints(seed, 0, g).subrange(0, 32) =~= checkpoint(seed, g, 0));
    } else {
        assert forall|i: int| 0 <= i <= k - 1 implies (#[trigger] checkpoint(seed, g, i as nat)).len() == 32 by {
            assert(0 <= i <= k);
        }
        lemma_checkpoint_layout(seed, (k - 1) as nat, g);
        let prev = checkpoints(seed, (k - 1) as nat, g);
        let all = checkpoints(seed, k, g);
        assert(all == prev + checkpoint(seed, g, k));
        assert forall|i: int| 0 <= i <= k implies all.subrange(32 * i, 32 * i + 32) == #[trigger] checkpoint(seed, g, i as nat) by {
            if i < k {
                assert(all.subrange(32 * i, 32 * i + 32) =~= prev.subrange(32 * i, 32 * i + 32));
            } else {
                assert(all.subrange(32 * i, 32 * i + 32) =~= checkpoint(seed, g, k));
            }
        }
    }
}

/// Solves the challenge: the standard base64 of the concatenation of all
/// k+1 checkpoints.
pub fn solve(challenge: &Challenge) -> (r: Result<String, PowError>)
    ensures
        match r {
            Ok(s) => solve_spec(challenge.seed@, challenge.k as nat, challenge.g as nat) == Ok::<Seq<char>, PowError>(s@),
            Err(e) => solve_spec(challenge.seed@, challenge.k as nat, challenge.g as nat) == Err::<Seq<char>, PowError>(e),
        },
        r is Ok ==> (base64url_unpadded_decoding(strip_padding(challenge.seed@)) matches Some(b) && checkpoints(
            b,
            challenge.k as nat,
            challenge.g as nat,
        ).len() == 32 * (challenge.k + 1) && forall|i: int|
            0 <= i <= challenge.k ==> {
                &&& (#[trigger] checkpoint(b, challenge.g as nat, i as nat)).len() == 32
                &&& checkpoints(b, challenge.k as nat, challenge.g as nat).subrange(32 * i, 32 * i + 32) == checkpoint(
                    b,
                    challenge.g as nat,
                    i as nat,
                )
            }),
{
    let trimmed = strip_padding_str(challenge.seed.as_str());
    let seed = match base64url_decode(trimmed.as_str()) {
        Ok(bytes) => bytes,
        Err(_) => return Err(PowError::SeedNotBase64),
    };
    if seed.len() != 32 {
        return Err(PowError::SeedLength(seed.len()));
    }
    let k = challenge.k;
    let g = challenge.g;
    if k == 0 || g == 0 {
        return Err(PowError::ZeroParameter);
    }
    match k.checked_mul(g) {
        Some(w) => {
            if w > MAX_WORK {
                return Err(PowError::TooMuchWork { k, g });
            }
        },
        None => {
            return Err(PowError::TooMuchWork { k, g });
        },
    }
    let ghost s = seed@;
    let mut hash = sha256(seed.as_slice());
    let mut out: Vec<u8> = Vec::new();
    out.extend_from_slice(hash.as_slice());
    assert(out@ =~= checkpoints(s, 0, g as nat));
    let mut segment: u64 = 0;
    while segment < k
        invariant
            segment <= k,
            hash@ == checkpoint(s, g as nat, segment as nat),
            out@ == checkpoints(s, segment as nat, g as nat),
            hash@.len() == 32,
            out@.len() == 32 * (segment + 1),
            forall|i: int| 0 <= i <= segment ==> (#[trigger] checkpoint(s, g as nat, i as nat)).len() == 32,
        decreases k - segment,
    {
        let ghost start = hash@;
        let mut it: u64 = 0;
        while it < g
            invariant
                it <= g,
                hash@ == sha256_iterated(start, it as nat),
                hash@.len() == 32,
            decreases g - it,
        {
            hash = sha256(hash.as_slice());
            it = it + 1;
        }
        segment = segment + 1;
        out.extend_from_slice(hash.as_slice());
    }
    proof {
        lemma_checkpoint_layout(s, k as nat, g as nat);
    }
    Ok(base64_encode(out.as_slice()))
}

} // verus!
