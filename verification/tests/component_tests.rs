use std::collections::HashSet;

use credential_engine::alias::resolve;
use credential_engine::alias::CredentialId;
use credential_engine::codec::decode;
use credential_engine::codec::encode;
use credential_engine::codec::SealedBlob;
use credential_engine::error::Error;
use credential_engine::keys::KeyHandle;

fn id(service: &str, account: &str) -> CredentialId {
    CredentialId::new(service.to_string(), account.to_string())
}

#[test]
fn resolve_is_deterministic_and_exact() {
    let a = resolve(&id("svc", "user")).unwrap();
    let b = resolve(&id("svc", "user")).unwrap();
    assert_eq!(a, "svc:user".to_string());
    assert_eq!(a, b);
}

#[test]
fn resolve_never_collides_on_a_sample() {
    let mut seen = HashSet::new();
    let mut count = 0usize;
    for i in 0..100 {
        for j in 0..100 {
            let service = format!("service{i}");
            let account = format!("account{j}");
            let alias = resolve(&id(&service, &account)).unwrap();
            assert!(seen.insert(alias), "collision for ({service}, {account})");
            count += 1;
        }
    }
    assert_eq!(count, seen.len());
}

#[test]
fn resolve_distinguishes_shifted_separators() {
    // "ab" + "c" and "a" + "bc" concatenate to the same text; the separator
    // keeps their aliases apart.
    let one = resolve(&id("ab", "c")).unwrap();
    let two = resolve(&id("a", "bc")).unwrap();
    assert_ne!(one, two);
}

#[test]
fn resolve_rejects_bad_components() {
    assert_eq!(resolve(&id("", "user")), Err(Error::InvalidArgument));
    assert_eq!(resolve(&id("svc", "")), Err(Error::InvalidArgument));
    assert_eq!(resolve(&id("s:vc", "user")), Err(Error::InvalidArgument));
    assert_eq!(resolve(&id("svc", "user name")), Err(Error::InvalidArgument));
    assert!(resolve(&id("A-z.0_9@x+y", "ok")).is_ok());
}

#[test]
fn seal_then_open_round_trips() {
    let handle = KeyHandle { generation: 7 };
    let nonce: Vec<u8> = vec![1, 2, 3, 4, 5, 6, 7, 8, 9, 10, 11, 12];
    let ctt = handle.seal(&nonce, b"a modest secret");
    let opened = handle.open(&nonce, &ctt).unwrap();
    assert_eq!(opened, b"a modest secret".to_vec());
}

#[test]
fn seal_hides_the_plaintext_bytes() {
    let handle = KeyHandle { generation: 7 };
    let nonce: Vec<u8> = vec![9, 9, 9, 9, 9, 9, 9, 9, 9, 9, 9, 9];
    let plaintext = b"plaintext!";
    let ctt = handle.seal(&nonce, plaintext);
    assert_eq!(ctt.len(), plaintext.len() + 8);
    assert_ne!(&ctt[..plaintext.len()], &plaintext[..]);
}

#[test]
fn open_under_wrong_generation_fails() {
    let sealer = KeyHandle { generation: 3 };
    let other = KeyHandle { generation: 4 };
    let nonce: Vec<u8> = vec![0, 1, 2, 3, 4, 5, 6, 7, 8, 9, 10, 11];
    let ctt = sealer.seal(&nonce, b"secret");
    assert_eq!(other.open(&nonce, &ctt), None);
    assert!(sealer.open(&nonce, &ctt).is_some());
}

#[test]
fn open_detects_tampering() {
    let handle = KeyHandle { generation: 3 };
    let nonce: Vec<u8> = vec![0, 1, 2, 3, 4, 5, 6, 7, 8, 9, 10, 11];
    let mut ctt = handle.seal(&nonce, b"secret");
    ctt[0] = ctt[0].wrapping_add(1);
    assert_eq!(handle.open(&nonce, &ctt), None);
}

#[test]
fn codec_round_trips() {
    let handle = KeyHandle { generation: 11 };
    let nonce: Vec<u8> = vec![12, 11, 10, 9, 8, 7, 6, 5, 4, 3, 2, 1];
    let ctt = handle.seal(&nonce, b"round trip me");
    let blob = SealedBlob { nonce: nonce.clone(), ciphertext_and_tag: ctt.clone() };
    let text = encode(&blob);
    assert!(text.chars().all(|c| c.is_ascii_hexdigit()));
    assert_eq!(text.len(), 2 * (nonce.len() + ctt.len()));
    let back = decode(&text).unwrap();
    assert_eq!(back.nonce, nonce);
    assert_eq!(back.ciphertext_and_tag, ctt);
}

#[test]
fn encode_is_exact_on_known_bytes() {
    let blob = SealedBlob {
        nonce: vec![0x00, 0x01, 0x0f, 0x10, 0xab, 0xcd, 0xef, 0x42, 0x99, 0x5a, 0x00, 0xff],
        ciphertext_and_tag: vec![0xde, 0xad, 0xbe, 0xef, 0x00, 0x11, 0x22, 0x33],
    };
    assert_eq!(encode(&blob), "00010f10abcdef42995a00ffdeadbeef00112233".to_string());
}

#[test]
fn decode_rejects_malformed_records() {
    // Too short to hold a nonce and a tag.
    assert!(matches!(decode("00"), Err(Error::BadEncoding)));
    // Odd length.
    let odd = "0".repeat(41);
    assert!(matches!(decode(&odd), Err(Error::BadEncoding)));
    // Non-hex characters.
    let bad = "zz".repeat(20);
    assert!(matches!(decode(&bad), Err(Error::BadEncoding)));
    // Uppercase digits are not the canonical form this codec writes.
    let upper = "AB".repeat(20);
    assert!(matches!(decode(&upper), Err(Error::BadEncoding)));
    // A well-formed minimal record parses.
    let minimal = "00".repeat(20);
    let blob = decode(&minimal).unwrap();
    assert_eq!(blob.nonce.len(), 12);
    assert_eq!(blob.ciphertext_and_tag.len(), 8);
}

#[test]
fn key_manager_is_idempotent() {
    let mut facility = credential_engine::keys::KeyFacility::new();
    let alias = "svc:user".to_string();
    assert!(!facility.key_exists("svc:user"));
    let h1 = facility.ensure_key(&alias).unwrap();
    let h2 = facility.ensure_key(&alias).unwrap();
    assert_eq!(h1, h2);
    assert!(facility.key_exists("svc:user"));
    let h3 = facility.regenerate_key(&alias).unwrap();
    assert_ne!(h1.generation, h3.generation);
    let h4 = facility.ensure_key(&alias).unwrap();
    assert_eq!(h3, h4);
    assert!(!facility.key_exists("other:user"));
}

#[test]
fn distinct_nonces_give_distinct_blobs() {
    let handle = KeyHandle { generation: 1 };
    let n1: Vec<u8> = vec![0; 12];
    let mut n2: Vec<u8> = vec![0; 12];
    n2[0] = 1;
    let c1 = handle.seal(&n1, b"same");
    let c2 = handle.seal(&n2, b"same");
    assert_ne!(c1, c2);
}
