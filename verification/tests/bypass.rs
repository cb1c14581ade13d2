use ironshield::bypass::{
    char_is_space, cookie_value_of, cookies_grant_bypass_at, credential_is_valid_at, same_text, trim,
};
use ironshield::token::{issue_token_at, IronShieldToken};
use ironshield::transport::concat_struct_base64url_encode;

fn secret() -> [u8; 32] {
    [0x42; 32]
}

fn credential(token: &IronShieldToken) -> String {
    concat_struct_base64url_encode(token.concat_struct())
}

#[test]
fn trim_agrees_with_the_standard_trim() {
    for s in [
        "", " ", "  ", "a", " a", "a ", " a ", "\t a b \r\n", "\u{a0}x\u{3000}", "\u{2003}\u{85}", "x\u{200b}",
        "\u{200b} x", " \u{e9} ", "a  b", "\u{1680}\u{2028}\u{2029}\u{202f}\u{205f}y\u{b}\u{c}",
    ] {
        assert_eq!(trim(s), s.trim(), "{:?}", s);
    }
}

#[test]
fn white_space_agrees_with_the_standard_set() {
    for v in 0u32..0x3100 {
        if let Some(c) = char::from_u32(v) {
            assert_eq!(char_is_space(c), c.is_whitespace(), "{:x}", v);
        }
    }
    assert!(!char_is_space('\u{feff}'));
    assert!(!char_is_space('\u{10ffff}'));
}

#[test]
fn same_text_values() {
    assert!(same_text("", ""));
    assert!(same_text("abc", "abc"));
    assert!(!same_text("abc", "abd"));
    assert!(!same_text("abc", "ab"));
    assert!(!same_text("", "a"));
    assert!(same_text("\u{e9}t\u{e9}", "\u{e9}t\u{e9}"));
    assert!(!same_text("\u{e9}", "e"));
}

#[test]
fn cookie_value_values() {
    assert_eq!(cookie_value_of("ironshield_token=abc", "ironshield_token"), Some("abc"));
    assert_eq!(cookie_value_of("  ironshield_token=abc  ", "ironshield_token"), Some("abc"));
    assert_eq!(cookie_value_of("ironshield_token=", "ironshield_token"), Some(""));
    assert_eq!(cookie_value_of("other=abc", "ironshield_token"), None);
    assert_eq!(cookie_value_of("ironshield_token", "ironshield_token"), None);
    assert_eq!(cookie_value_of("ironshield_token=a=b", "ironshield_token"), None);
    assert_eq!(cookie_value_of("", "ironshield_token"), None);
    assert_eq!(cookie_value_of("ironshield_token =abc", "ironshield_token"), None);
    assert_eq!(cookie_value_of("=abc", ""), Some("abc"));
}

#[test]
fn credential_of_an_issued_token() {
    let token = issue_token_at([0x11; 64], 1_000, 500, &secret());
    let text = credential(&token);
    assert!(credential_is_valid_at(&text, 1_000));
    assert!(credential_is_valid_at(&text, 1_500));
    assert!(!credential_is_valid_at(&text, 1_501));
}

#[test]
fn credentials_that_are_refused() {
    let token = issue_token_at([0x11; 64], 1_000, 500, &secret());
    // A fixed word is no credential.
    assert!(!credential_is_valid_at("test_approved", 1_000));
    assert!(!credential_is_valid_at("", 1_000));
    assert!(!credential_is_valid_at("not base64!", 1_000));
    // The bare transport text, not wrapped.
    assert!(!credential_is_valid_at(&token.concat_struct(), 1_000));
    // Wrapped text that is no token.
    assert!(!credential_is_valid_at(&concat_struct_base64url_encode("a|b|c|d".to_string()), 1_000));
    // A token with a deadline moved forward.
    let mut forged = token.clone();
    forged.valid_for = 1_000_000;
    assert!(!credential_is_valid_at(&credential(&forged), 1_000));
    // A token signed by nobody.
    let unsigned = IronShieldToken::new([0x11; 64], 1_500, token.public_key, [0; 64]);
    assert!(!credential_is_valid_at(&credential(&unsigned), 1_000));
    // Padding is not part of the form.
    let padded = format!("{}=", credential(&token));
    assert!(!credential_is_valid_at(&padded, 1_000));
}

#[test]
fn cookie_header_grants_the_bypass() {
    let token = issue_token_at([0x11; 64], 1_000, 500, &secret());
    let good = credential(&token);
    let name = "ironshield_token";
    assert!(cookies_grant_bypass_at(&format!("{}={}", name, good), name, 1_000));
    assert!(cookies_grant_bypass_at(&format!("a=b; {}={}; c=d", name, good), name, 1_000));
    assert!(cookies_grant_bypass_at(&format!("{}=bad; {}={}", name, name, good), name, 1_000));
    assert!(cookies_grant_bypass_at(&format!("a=b;{}={} ", name, good), name, 1_500));
    assert!(!cookies_grant_bypass_at(&format!("a=b; {}={}; c=d", name, good), name, 1_501));
    assert!(!cookies_grant_bypass_at(&format!("x{}={}", name, good), name, 1_000));
    assert!(!cookies_grant_bypass_at(&format!("{}=test_approved", name), name, 1_000));
    assert!(!cookies_grant_bypass_at("", name, 1_000));
    assert!(!cookies_grant_bypass_at(";;", name, 1_000));
    assert!(!cookies_grant_bypass_at(&good, name, 1_000));
}
