use watch_party::clock::to_millis_u64;
use watch_party::origins::{allowed_origins, is_origin_allowed, parse_allowed_origins};
use watch_party::{now_ms, sanitize_room_name, Claims, JwtConfig};

#[test]
fn sanitize_strips_control_characters() {
    assert_eq!(sanitize_room_name("Movie  Night\u{0007}"), "Movie  Night");
    assert_eq!(sanitize_room_name("a\u{0000}b\u{009f}c"), "abc");
}

#[test]
fn sanitize_trims() {
    assert_eq!(sanitize_room_name("  ab  "), "ab");
    assert_eq!(sanitize_room_name("\u{3000}x y\u{00a0}"), "x y");
}

#[test]
fn sanitize_blank_gives_default() {
    assert_eq!(sanitize_room_name(""), "New Room");
    assert_eq!(sanitize_room_name("   \t\n "), "New Room");
    assert_eq!(sanitize_room_name("\u{0001}\u{0002}"), "New Room");
}

#[test]
fn sanitize_truncates_long_names() {
    let long = "x".repeat(80);
    let s = sanitize_room_name(&long);
    assert_eq!(s, "x".repeat(50));
    let s = sanitize_room_name(&format!("{}{}", "é".repeat(49), "ab"));
    assert_eq!(s.chars().count(), 50);
    assert!(s.ends_with('a'));
}

#[test]
fn sanitize_is_idempotent() {
    for input in ["  Movie  Night\u{0007} ", "", "   ", "abc", &"y ".repeat(40)] {
        let once = sanitize_room_name(input);
        assert_eq!(sanitize_room_name(&once), once);
    }
}

#[test]
fn origins_allow_list() {
    let allowed = vec!["http://localhost:8096".to_string(), "https://localhost:8096".to_string()];
    assert!(is_origin_allowed("http://localhost:8096", &allowed));
    assert!(!is_origin_allowed("http://evil.example", &allowed));
    let any = vec!["*".to_string()];
    assert!(is_origin_allowed("http://evil.example", &any));
    assert!(!is_origin_allowed("x", &[]));
}

#[test]
fn auth_disabled_gives_anonymous() {
    let cfg = JwtConfig::from_settings(String::new(), None, None);
    assert!(!cfg.enabled);
    assert_eq!(cfg.audience, "OpenWatchParty");
    assert_eq!(cfg.issuer, "Jellyfin");
    let c = cfg.validate_token(Err("ignored".to_string())).ok().unwrap();
    assert_eq!(c.sub, "anonymous");
    assert_eq!(c.name, "Anonymous");
    assert_eq!(c.aud, "OpenWatchParty");
    assert_eq!(c.iss, "Jellyfin");
    assert_eq!(c.exp, 0);
}

#[test]
fn auth_enabled_passes_outcome_through() {
    let cfg = JwtConfig::from_settings("s3cret".to_string(), Some("aud".to_string()), Some("iss".to_string()));
    assert!(cfg.enabled);
    assert_eq!(cfg.audience, "aud");
    let claims = Claims {
        sub: "u1".to_string(),
        name: "User".to_string(),
        aud: "aud".to_string(),
        iss: "iss".to_string(),
        exp: 10,
        iat: 1,
    };
    let c = cfg.validate_token(Ok(claims)).ok().unwrap();
    assert_eq!(c.sub, "u1");
    let e = cfg.validate_token(Err("ExpiredSignature".to_string())).err().unwrap();
    assert_eq!(e, "Invalid token: ExpiredSignature");
}

#[test]
fn secret_warnings() {
    let weak = JwtConfig::from_settings("aaaaaaaaaa".to_string(), None, None);
    let w = weak.secret_warnings();
    assert!(w.too_short);
    assert!(w.low_entropy);
    let strong = JwtConfig::from_settings("abcdefghijklmnopqrstuvwxyz0123456789".to_string(), None, None);
    let w = strong.secret_warnings();
    assert!(!w.too_short);
    assert!(!w.low_entropy);
    let off = JwtConfig::from_settings(String::new(), None, None);
    assert!(!off.secret_warnings().too_short);
}

#[test]
fn clock_readings() {
    assert_eq!(to_millis_u64(None), 0);
    assert_eq!(to_millis_u64(Some(1_234)), 1_234);
    assert_eq!(to_millis_u64(Some((1u128 << 64) + 5)), 5);
    assert!(now_ms() > 1_600_000_000_000);
}

#[test]
fn origin_setting_is_split_and_trimmed() {
    assert_eq!(parse_allowed_origins(" a , b,,  ,c "), vec!["a", "b", "c"]);
    assert!(parse_allowed_origins("").is_empty());
    assert_eq!(parse_allowed_origins("*"), vec!["*"]);
    assert_eq!(
        allowed_origins(None),
        vec!["http://localhost:8096", "https://localhost:8096"]
    );
    assert_eq!(allowed_origins(Some("x,y".to_string())), vec!["x", "y"]);
}
