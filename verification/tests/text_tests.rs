use rpow2_miner::text::{
    cookie_header, cookie_pair, display_prefix, extract_cookie_pairs, extract_token, extract_username,
    parse_usize, parse_worker_count, prefix_before, text_contains,
};

#[test]
fn username_is_text_before_at() {
    assert_eq!(extract_username("alice@example.com"), "alice");
    assert_eq!(extract_username("no-at-sign"), "no-at-sign");
    assert_eq!(extract_username("@host"), "");
    assert_eq!(extract_username("a@b@c"), "a");
}

#[test]
fn prefix_before_is_idempotent_on_values() {
    let once = prefix_before("x;y;z", ';');
    assert_eq!(once, "x");
    assert_eq!(prefix_before(&once, ';'), once);
}

#[test]
fn cookie_pair_drops_attributes() {
    assert_eq!(cookie_pair("session=abc123; Path=/; HttpOnly; Secure"), "session=abc123");
    assert_eq!(cookie_pair("plain=1"), "plain=1");
}

#[test]
fn cookie_pairs_in_order() {
    let values = vec!["a=1; Path=/".to_string(), "b=2".to_string(), "c=3;Max-Age=10".to_string()];
    assert_eq!(extract_cookie_pairs(&values), vec!["a=1", "b=2", "c=3"]);
    assert!(extract_cookie_pairs(&vec![]).is_empty());
}

#[test]
fn cookie_header_joins_with_semicolon_space() {
    assert_eq!(cookie_header(&vec!["a=1".to_string(), "b=2".to_string()]), "a=1; b=2");
    assert_eq!(cookie_header(&vec!["only=1".to_string()]), "only=1");
    assert_eq!(cookie_header(&vec![]), "");
}

#[test]
fn token_from_magic_link() {
    assert_eq!(extract_token("https://rpow2.com/auth/verify?token=abc123"), "abc123");
}

#[test]
fn bare_token_is_kept() {
    assert_eq!(extract_token("abc123"), "abc123");
    assert_eq!(extract_token(""), "");
}

#[test]
fn last_token_marker_wins() {
    assert_eq!(extract_token("x?token=first&token=second"), "second");
    assert_eq!(extract_token("token="), "");
}

#[test]
fn contains_finds_substrings() {
    assert!(text_contains("error: TURNSTILE_REQUIRED", "TURNSTILE_REQUIRED"));
    assert!(!text_contains("BLOCK", "BLOCKED"));
    assert!(text_contains("anything", ""));
}

#[test]
fn usize_parsing_follows_from_str() {
    assert_eq!(parse_usize("42"), Some(42));
    assert_eq!(parse_usize("+7"), Some(7));
    assert_eq!(parse_usize("007"), Some(7));
    assert_eq!(parse_usize("+"), None);
    assert_eq!(parse_usize("-1"), None);
    assert_eq!(parse_usize(""), None);
    assert_eq!(parse_usize("12a"), None);
    assert_eq!(parse_usize("99999999999999999999999"), None);
    let max = usize::MAX.to_string();
    assert_eq!(parse_usize(&max), Some(usize::MAX));
    for s in ["0", "5", "+12", "18446744073709551616", " 1", "1 ", "٣"] {
        assert_eq!(parse_usize(s), s.parse::<usize>().ok(), "input {:?}", s);
    }
}

#[test]
fn worker_count_defaults_to_two() {
    assert_eq!(parse_worker_count(""), 2);
    assert_eq!(parse_worker_count("four"), 2);
    assert_eq!(parse_worker_count("-3"), 2);
}

#[test]
fn worker_count_takes_number_at_least_one() {
    assert_eq!(parse_worker_count("4"), 4);
    assert_eq!(parse_worker_count("0"), 1);
    assert_eq!(parse_worker_count("+16"), 16);
}

#[test]
fn display_prefix_cuts_long_text() {
    assert_eq!(display_prefix("0123456789abcdefXYZ", 16), "0123456789abcdef");
    assert_eq!(display_prefix("0123456789abcdef", 16), "0123456789abcdef");
    assert_eq!(display_prefix("short", 8), "short");
    assert_eq!(display_prefix("eeebeffa1234", 8), "eeebeffa");
}
