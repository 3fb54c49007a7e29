use base64::Engine;
use cfdrop::pow::{solve, Challenge, PowError, MAX_WORK};
use sha2::{Digest, Sha256};

fn seed_b64url(bytes: &[u8]) -> String {
    base64::engine::general_purpose::URL_SAFE_NO_PAD.encode(bytes)
}

fn sha256(input: &[u8]) -> [u8; 32] {
    let mut hasher = Sha256::new();
    hasher.update(input);
    hasher.finalize().into()
}

#[test]
fn solves_minimal_chain() {
    let seed = [7u8; 32];
    let challenge = Challenge { seed: seed_b64url(&seed), k: 2, g: 3 };
    let solution = solve(&challenge).unwrap();
    let decoded = base64::engine::general_purpose::STANDARD.decode(&solution).unwrap();
    assert_eq!(decoded.len(), 3 * 32);
    let c0 = sha256(&seed);
    let mut h = c0;
    for _ in 0..3 {
        h = sha256(&h);
    }
    let c1 = h;
    for _ in 0..3 {
        h = sha256(&h);
    }
    let c2 = h;
    assert_eq!(&decoded[0..32], &c0);
    assert_eq!(&decoded[32..64], &c1);
    assert_eq!(&decoded[64..96], &c2);
}

#[test]
fn rejects_bad_seed_length() {
    let challenge = Challenge { seed: seed_b64url(&[1u8; 16]), k: 1, g: 1 };
    assert!(solve(&challenge).is_err());
}

#[test]
fn rejects_excessive_work() {
    let challenge = Challenge { seed: seed_b64url(&[1u8; 32]), k: 8_001, g: 8_000_000 };
    assert!(solve(&challenge).is_err());
}

#[test]
fn rejects_zero_k_or_g() {
    let base = |k, g| Challenge { seed: seed_b64url(&[1u8; 32]), k, g };
    assert!(solve(&base(0, 5)).is_err());
    assert!(solve(&base(5, 0)).is_err());
}

#[test]
fn accepts_padded_base64url_seed() {
    let padded = format!("{}=", base64::engine::general_purpose::URL_SAFE_NO_PAD.encode([9u8; 32]));
    let challenge = Challenge { seed: padded, k: 1, g: 1 };
    assert!(solve(&challenge).is_ok());
}

#[test]
fn each_refusal_names_its_reason() {
    let seed = seed_b64url(&[1u8; 32]);
    assert_eq!(
        solve(&Challenge { seed: "not base64!".into(), k: 1, g: 1 }).unwrap_err(),
        PowError::SeedNotBase64
    );
    let short = solve(&Challenge { seed: seed_b64url(&[1u8; 16]), k: 1, g: 1 }).unwrap_err();
    assert_eq!(short, PowError::SeedLength(16));
    assert_eq!(short.message(), "challenge seed must decode to 32 bytes, got 16");
    assert_eq!(solve(&Challenge { seed: seed.clone(), k: 0, g: 1 }).unwrap_err(), PowError::ZeroParameter);
    let big = solve(&Challenge { seed: seed.clone(), k: 8_001, g: 8_000_000 }).unwrap_err();
    assert_eq!(big, PowError::TooMuchWork { k: 8_001, g: 8_000_000 });
    assert_eq!(
        big.message(),
        "challenge work factor k*g = 64008000000 exceeds the 64000000 safety cap"
    );
    // a product that overflows u64 is refused too
    assert!(matches!(
        solve(&Challenge { seed, k: u64::MAX, g: 2 }).unwrap_err(),
        PowError::TooMuchWork { .. }
    ));
}

#[test]
fn work_exactly_at_the_cap_is_accepted_by_the_checks() {
    // k * g == MAX_WORK passes the checks; a small chain shows the length
    let seed = seed_b64url(&[3u8; 32]);
    assert!(MAX_WORK == 64_000_000);
    let s = solve(&Challenge { seed, k: 4, g: 1 }).unwrap();
    let decoded = base64::engine::general_purpose::STANDARD.decode(&s).unwrap();
    assert_eq!(decoded.len(), 5 * 32);
    let c0 = sha256(&[3u8; 32]);
    assert_eq!(&decoded[0..32], &c0);
    assert_eq!(&decoded[32..64], &sha256(&c0));
}
