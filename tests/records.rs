use totp_console::cli::{highlight_remaining, is_new_code, parse_update_options, UpdateArgsError};
use totp_console::entry::{issuer_from_stored, stored_issuer, updated_fields, TotpEntry};
use totp_console::kv::{choose_kv_settings, CloudflareKV};
use totp_console::otpauth::{entry_from_otpauth_uri, entry_from_uri_parts, OtpAuthError};

fn strings(items: &[&str]) -> Vec<String> {
    items.iter().map(|s| s.to_string()).collect()
}

#[test]
fn otpauth_uri_gives_entry() {
    let entry = entry_from_otpauth_uri(
        "otpauth://totp/Example:alice@google.com?secret=JBSWY3DPEHPK3PXP&issuer=Example",
        "2024-01-01T00:00:00+00:00".to_string(),
    )
    .unwrap();
    assert_eq!(entry.id, None);
    assert_eq!(entry.name, "Example");
    assert_eq!(entry.secret, "JBSWY3DPEHPK3PXP");
    assert_eq!(entry.issuer.as_deref(), Some("Example"));
    assert_eq!(entry.created_at, "2024-01-01T00:00:00+00:00");
}

#[test]
fn otpauth_uri_without_issuer_or_colon() {
    let entry =
        entry_from_otpauth_uri("otpauth://totp/github?secret=ABC&secret=MZXW6", String::new())
            .unwrap();
    assert_eq!(entry.name, "github");
    assert_eq!(entry.secret, "MZXW6");
    assert_eq!(entry.issuer, None);
}

#[test]
fn otpauth_uri_errors() {
    assert_eq!(
        entry_from_otpauth_uri("https://example.com/?secret=ABC", String::new()).unwrap_err(),
        OtpAuthError::NotTotpUri
    );
    assert_eq!(
        entry_from_otpauth_uri("otpauth://hotp/x?secret=ABC", String::new()).unwrap_err(),
        OtpAuthError::NotTotpUri
    );
    assert_eq!(
        entry_from_otpauth_uri("otpauth://totp/name?issuer=X", String::new()).unwrap_err(),
        OtpAuthError::MissingSecret
    );
    assert_eq!(
        entry_from_otpauth_uri("otpauth://totp/name?secret=", String::new()).unwrap_err(),
        OtpAuthError::MissingSecret
    );
}

#[test]
fn uri_parts_without_segment_name_unknown() {
    let pairs = vec![("secret".to_string(), "AAAA".to_string())];
    let entry = entry_from_uri_parts(None, &pairs, "now".to_string()).unwrap();
    assert_eq!(entry.name, "unknown");
    let entry = entry_from_uri_parts(Some("a:b:c".to_string()), &pairs, "now".to_string()).unwrap();
    assert_eq!(entry.name, "a");
    let entry = entry_from_uri_parts(Some(":x".to_string()), &pairs, "now".to_string()).unwrap();
    assert_eq!(entry.name, "");
    let none: Vec<(String, String)> = Vec::new();
    assert_eq!(
        entry_from_uri_parts(None, &none, String::new()).unwrap_err(),
        OtpAuthError::MissingSecret
    );
}

#[test]
fn entry_is_a_plain_record() {
    let entry = TotpEntry {
        id: Some(3),
        name: "n".to_string(),
        secret: "s".to_string(),
        issuer: None,
        created_at: String::new(),
    };
    let copy = entry.clone();
    assert_eq!(copy.id, Some(3));
    assert_eq!(copy.name, "n");
}

#[test]
fn kv_addresses() {
    let kv = CloudflareKV::new("acc".to_string(), "ns".to_string(), "tok".to_string());
    assert_eq!(
        kv.values_url(),
        "https://api.cloudflare.com/client/v4/accounts/acc/storage/kv/namespaces/ns/values/totp_entries"
    );
    assert_eq!(kv.authorization(), "Bearer tok");
    assert_eq!(kv.account_id(), "acc");
    assert_eq!(kv.namespace_id(), "ns");
    assert_eq!(kv.api_token(), "tok");
}

#[test]
fn kv_settings_prefer_the_file() {
    let file = CloudflareKV::new("f".to_string(), "g".to_string(), "h".to_string());
    let chosen = choose_kv_settings(
        Some(file),
        Some("a".to_string()),
        Some("b".to_string()),
        Some("c".to_string()),
    )
    .unwrap();
    assert_eq!(chosen.account_id(), "f");
    let chosen =
        choose_kv_settings(None, Some("a".to_string()), Some("b".to_string()), Some("c".to_string()))
            .unwrap();
    assert_eq!(chosen.account_id(), "a");
    assert_eq!(chosen.namespace_id(), "b");
    assert_eq!(chosen.api_token(), "c");
    assert!(choose_kv_settings(None, Some("a".to_string()), None, Some("c".to_string())).is_none());
}

#[test]
fn update_options_are_read() {
    let args = strings(&["totp", "update", "github", "--issuer", "GitHub Inc"]);
    let o = parse_update_options(&args, 3).unwrap();
    assert_eq!(o.secret, None);
    assert_eq!(o.issuer.as_deref(), Some("GitHub Inc"));
    let args = strings(&["totp", "update", "g", "--secret", "A", "--issuer", "I", "--secret", "B"]);
    let o = parse_update_options(&args, 3).unwrap();
    assert_eq!(o.secret.as_deref(), Some("B"));
    assert_eq!(o.issuer.as_deref(), Some("I"));
}

#[test]
fn update_option_errors() {
    let args = strings(&["totp", "update", "g"]);
    assert_eq!(parse_update_options(&args, 3).unwrap_err(), UpdateArgsError::NothingToUpdate);
    let args = strings(&["totp", "update", "g", "--secret"]);
    assert_eq!(parse_update_options(&args, 3).unwrap_err(), UpdateArgsError::SecretNeedsValue);
    let args = strings(&["totp", "update", "g", "--issuer"]);
    assert_eq!(parse_update_options(&args, 3).unwrap_err(), UpdateArgsError::IssuerNeedsValue);
    let args = strings(&["totp", "update", "g", "--secret", "A", "--name", "x"]);
    assert_eq!(parse_update_options(&args, 3).unwrap_err(), UpdateArgsError::UnknownFlag(5));
}

#[test]
fn issuer_storage_round_trip() {
    assert_eq!(stored_issuer(&None), "");
    assert_eq!(stored_issuer(&Some("GitHub".to_string())), "GitHub");
    assert_eq!(issuer_from_stored(String::new()), None);
    assert_eq!(issuer_from_stored("GitHub".to_string()).as_deref(), Some("GitHub"));
}

#[test]
fn update_replaces_only_given_fields() {
    let entry = TotpEntry {
        id: Some(1),
        name: "github".to_string(),
        secret: "OLDSECRET".to_string(),
        issuer: Some("GitHub".to_string()),
        created_at: String::new(),
    };
    assert_eq!(
        updated_fields(&entry, None, Some("GitHub Inc")),
        ("OLDSECRET".to_string(), "GitHub Inc".to_string())
    );
    assert_eq!(
        updated_fields(&entry, Some("NEWSECRET"), None),
        ("NEWSECRET".to_string(), "GitHub".to_string())
    );
    let bare = TotpEntry { issuer: None, ..entry };
    assert_eq!(updated_fields(&bare, None, None), ("OLDSECRET".to_string(), String::new()));
}

#[test]
fn live_mode_display_rules() {
    let old = "123456".to_string();
    assert!(is_new_code(None, &old));
    assert!(!is_new_code(Some(&old), &"123456".to_string()));
    assert!(is_new_code(Some(&old), &"654321".to_string()));
    assert!(highlight_remaining(5, false));
    assert!(highlight_remaining(1, false));
    assert!(!highlight_remaining(6, false));
    assert!(!highlight_remaining(3, true));
}
