use crawl_tree::page::{crawl_url, token_link};
use crawl_tree::token::Token;
use crawl_tree::user::User;
use crawl_tree::wire::{is_lower_hex, push_le_bytes, read_le_u64};

#[test]
fn le_bytes_round_trip() {
    let mut out = vec![9u8];
    push_le_bytes(&mut out, 0x0102_0304_0506_0708);
    assert_eq!(out, vec![9, 8, 7, 6, 5, 4, 3, 2, 1]);
    assert_eq!(read_le_u64(&out, 1), 0x0102_0304_0506_0708);
    let mut max = Vec::new();
    push_le_bytes(&mut max, u64::MAX);
    assert_eq!(max, vec![0xff; 8]);
    assert_eq!(read_le_u64(&max, 0), u64::MAX);
}

#[test]
fn lower_hex_check() {
    assert!(is_lower_hex(b""));
    assert!(is_lower_hex(b"0123456789abcdef"));
    assert!(!is_lower_hex(b"ABCDEF"));
    assert!(!is_lower_hex(b"12g4"));
    assert!(!is_lower_hex(b"12 4"));
}

#[test]
fn url_shape() {
    assert_eq!(crawl_url("https://host", "ab12"), "https://host/crawl/ab12/");
    assert_eq!(crawl_url("", ""), "/crawl//");
}

#[test]
fn link_of_token() {
    let t = Token::new(1, 2, &User::new("carol".to_string()));
    let link = token_link(&t, "http://h");
    assert_eq!(link.token, t.as_hex());
    assert_eq!(link.url, format!("http://h/crawl/{}/", t.as_hex()));
}
