use std::hash::Hasher;

use crawl_tree::page::{build_token_response, spend_response, TokenResponse};
use crawl_tree::token::{Token, MAX_CHILDREN};
use crawl_tree::user::{ErrorResponse, User};
use rand::{Rng, SeedableRng};

fn alice() -> User {
    User::new("alice".to_string())
}

fn bob() -> User {
    User::new("bob".to_string())
}

fn expected_target(t: &Token) -> u64 {
    let mut h = seahash::SeaHasher::default();
    h.write(b"<SUPER SECRET!>");
    h.write_u64(t.user_hash);
    h.write_u8(t.index);
    h.write_u64(t.source);
    seahash::hash(&h.finish().to_le_bytes())
}

#[test]
fn new_binds_user_hash() {
    let t = Token::new(3, 42, &alice());
    assert_eq!(t.index, 3);
    assert_eq!(t.source, 42);
    assert_eq!(t.user_hash, seahash::hash(b"alice"));
    assert_ne!(t.user_hash, Token::new(3, 42, &bob()).user_hash);
}

#[test]
fn target_matches_two_stage_hash() {
    let t = Token::new(5, 0x0123_4567_89ab_cdef, &alice());
    assert_eq!(t.target(), expected_target(&t));
    assert_eq!(t.target(), t.target());
}

#[test]
fn as_hex_is_wire_form() {
    let t = Token::new(7, 0x1122_3344_5566_7788, &alice());
    let mut bytes = vec![7u8];
    bytes.extend_from_slice(&0x1122_3344_5566_7788u64.to_le_bytes());
    bytes.extend_from_slice(&t.target().to_le_bytes());
    let hex = t.as_hex();
    assert_eq!(hex, hex::encode(&bytes));
    assert_eq!(hex.len(), 34);
    assert!(hex.bytes().all(|c| c.is_ascii_digit() || (b'a'..=b'f').contains(&c)));
    assert!(hex.starts_with("078877665544332211"));
}

#[test]
fn round_trip_for_owner() {
    let t = Token::new(2, 99, &alice());
    let hex = t.as_hex();
    assert_eq!(Token::validate_from_hex(&alice(), hex.as_bytes()), Some(t));
}

#[test]
fn root_round_trip() {
    let root = Token::from_user(&alice());
    assert_eq!(root.index, 0);
    assert_eq!(root.user_hash, seahash::hash(b"alice"));
    let hex = root.as_hex();
    assert_eq!(Token::validate_from_hex(&alice(), hex.as_bytes()), Some(root));
}

#[test]
fn cross_user_rejected() {
    let t = Token::from_user(&alice());
    let hex = t.as_hex();
    assert_eq!(Token::validate_from_hex(&bob(), hex.as_bytes()), None);
}

#[test]
fn forged_last_byte_rejected() {
    let t = Token::from_user(&alice());
    let mut hex = t.as_hex().into_bytes();
    let last = hex.len() - 1;
    hex[last] = if hex[last] == b'0' { b'1' } else { b'0' };
    assert_eq!(Token::validate_from_hex(&alice(), &hex), None);
}

#[test]
fn malformed_text_rejected() {
    let t = Token::from_user(&alice());
    let hex = t.as_hex();
    assert_eq!(Token::validate_from_hex(&alice(), b""), None);
    assert_eq!(Token::validate_from_hex(&alice(), &hex.as_bytes()[..32]), None);
    let mut longer = hex.clone();
    longer.push_str("00");
    assert_eq!(Token::validate_from_hex(&alice(), longer.as_bytes()), None);
    let mut odd = hex.clone();
    odd.push('0');
    assert_eq!(Token::validate_from_hex(&alice(), odd.as_bytes()), None);
    let mut bad = hex.clone().into_bytes();
    bad[4] = b'g';
    assert_eq!(Token::validate_from_hex(&alice(), &bad), None);
}

#[test]
fn uppercase_rejected() {
    // Find a token whose text has a letter, then write it in upper case.
    let mut source = 0u64;
    loop {
        let t = Token::new(0, source, &alice());
        let hex = t.as_hex();
        if hex.bytes().any(|c| c.is_ascii_alphabetic()) {
            assert_eq!(Token::validate_from_hex(&alice(), hex.as_bytes()), Some(t));
            let upper = hex.to_uppercase();
            assert_eq!(Token::validate_from_hex(&alice(), upper.as_bytes()), None);
            break;
        }
        source += 1;
    }
}

#[test]
fn children_shape() {
    for source in 0..200u64 {
        let t = Token::new(1, source, &alice());
        let kids = t.iter_children();
        assert!(!kids.is_empty() && kids.len() <= MAX_CHILDREN as usize);
        for (i, c) in kids.iter().enumerate() {
            assert_eq!(c.index as usize, i);
            assert_eq!(c.source, t.target());
            assert_eq!(c.user_hash, t.user_hash);
        }
    }
}

#[test]
fn children_count_follows_small_rng() {
    for source in [0u64, 1, 7, 12345, u64::MAX] {
        let t = Token::new(0, source, &alice());
        let mut rng = rand::rngs::SmallRng::seed_from_u64(source);
        let n: u8 = rng.random_range(1..=8u8);
        assert_eq!(t.iter_children().len(), n as usize);
    }
}

#[test]
fn children_deterministic() {
    let t = Token::from_user(&alice());
    assert_eq!(t.iter_children(), t.iter_children());
}

#[test]
fn children_validate_for_owner_only() {
    let t = Token::from_user(&alice());
    for c in t.iter_children() {
        let hex = c.as_hex();
        assert_eq!(Token::validate_from_hex(&alice(), hex.as_bytes()), Some(c));
        assert_eq!(Token::validate_from_hex(&bob(), hex.as_bytes()), None);
    }
}

#[test]
fn page_links() {
    let t = Token::from_user(&alice());
    match build_token_response(t, "http://example.test") {
        TokenResponse::Valid { root, children } => {
            assert_eq!(root.token, t.as_hex());
            assert_eq!(root.url, format!("http://example.test/crawl/{}/", t.as_hex()));
            let kids = t.iter_children();
            assert_eq!(children.len(), kids.len());
            assert!(!children.is_empty() && children.len() <= 8);
            for (link, kid) in children.iter().zip(kids.iter()) {
                assert_eq!(link.token.len(), 34);
                assert_eq!(link.token, kid.as_hex());
                assert_eq!(link.url, format!("http://example.test/crawl/{}/", kid.as_hex()));
            }
        }
        TokenResponse::AlreadyUsed => panic!("a page was expected"),
    }
}

#[test]
fn spent_token_answer() {
    let t = Token::from_user(&alice());
    assert!(matches!(spend_response(t, true, "http://x"), TokenResponse::AlreadyUsed));
    assert!(matches!(spend_response(t, false, "http://x"), TokenResponse::Valid { .. }));
}

#[test]
fn missing_header_body() {
    let e = ErrorResponse::missing_auth_header();
    assert_eq!(e.error, "Missing authentification header");
    assert_eq!(
        e.message,
        "You must specify a user ID through any of the following headers: [\"X-User\", \"X-Forwarded-User\"]."
    );
    assert_eq!(
        e.message,
        format!(
            "You must specify a user ID through any of the following headers: {:?}.",
            ["X-User", "X-Forwarded-User"]
        )
    );
}

#[test]
fn invalid_id_body() {
    let e = ErrorResponse::invalid_id("failed to convert header to a str");
    assert_eq!(e.error, "User ID is not well formatted: failed to convert header to a str");
    assert_eq!(e.message, "The user ID must be a valid UTF-8 string");
}
