use mongodb_utils::auth::{
    auth_status, authenticate, check_setup, login_user, setup_admin, validate_credentials, CredentialsInput, UserView,
};
use mongodb_utils::config::{decode_session_key, hex_decode, parse_port, Config, ConfigError, PortError};
use mongodb_utils::error::AppError;
use mongodb_utils::storage::users::{UserStore, UsersFile};

fn creds(u: &str, p: &str) -> CredentialsInput {
    CredentialsInput { username: u.to_string(), password: p.to_string() }
}

#[test]
fn ports() {
    assert_eq!(parse_port("8080"), Ok(8080));
    assert_eq!(parse_port("+80"), Ok(80));
    assert_eq!(parse_port("65535"), Ok(65535));
    assert_eq!(parse_port(""), Err(PortError::Empty));
    assert_eq!(parse_port("+"), Err(PortError::InvalidDigit));
    assert_eq!(parse_port("-1"), Err(PortError::InvalidDigit));
    assert_eq!(parse_port(" 80"), Err(PortError::InvalidDigit));
    assert_eq!(parse_port("65536"), Err(PortError::TooLarge));
    assert_eq!(parse_port("99999x"), Err(PortError::TooLarge));
    for s in ["0", "1", "443", "+65535", "65536", "abc", "", "+"] {
        assert_eq!(parse_port(s).ok(), s.parse::<u16>().ok(), "{s}");
    }
}

#[test]
fn hex_and_session_keys() {
    assert_eq!(hex_decode("00ff10Ab"), Some(vec![0x00, 0xff, 0x10, 0xab]));
    assert_eq!(hex_decode(""), None);
    assert_eq!(hex_decode("abc"), None);
    assert_eq!(hex_decode("zz"), None);
    assert_eq!(decode_session_key("0a0b"), vec![10, 11]);
    assert_eq!(decode_session_key("key!"), b"key!".to_vec());
}

#[test]
fn config_from_values() {
    let key = "ab".repeat(64);
    let c = Config::from_values(None, None, Some(key.clone()), None, None).unwrap();
    assert_eq!(c.bind_addr, "127.0.0.1");
    assert_eq!(c.port, 8080);
    assert_eq!(c.session_key.len(), 64);
    assert_eq!(c.data_dir, "./data");
    assert_eq!(c.backup_dir, "./backups");
    let c = Config::from_values(Some("0.0.0.0".into()), Some("9000".into()), Some("x".repeat(64)), Some("/d".into()), Some("/b".into()))
        .unwrap();
    assert_eq!((c.bind_addr.as_str(), c.port, c.data_dir.as_str(), c.backup_dir.as_str()), ("0.0.0.0", 9000, "/d", "/b"));
    assert_eq!(c.session_key, "x".repeat(64).into_bytes());
    assert!(matches!(
        Config::from_values(None, Some("http".into()), Some(key.clone()), None, None),
        Err(ConfigError::InvalidPort(PortError::InvalidDigit))
    ));
    assert!(matches!(Config::from_values(None, None, None, None, None), Err(ConfigError::MissingSessionKey)));
    assert!(matches!(
        Config::from_values(None, None, Some("ab".repeat(10)), None, None),
        Err(ConfigError::SessionKeyTooShort(10))
    ));
}

fn bad(r: Result<impl std::fmt::Debug, AppError>, msg: &str) {
    match r {
        Err(AppError::BadRequest(m)) => assert_eq!(m, msg),
        other => panic!("unexpected {other:?}"),
    }
}

#[test]
fn credential_checks() {
    assert!(validate_credentials(&creds(" admin ", "12345678")).is_ok());
    bad(validate_credentials(&creds("   ", "12345678")), "username must be 1-64 characters");
    bad(validate_credentials(&creds(&"a".repeat(65), "12345678")), "username must be 1-64 characters");
    assert!(validate_credentials(&creds(&"a".repeat(64), "12345678")).is_ok());
    // lengths are counted in bytes
    bad(validate_credentials(&creds(&"é".repeat(33), "12345678")), "username must be 1-64 characters");
    bad(validate_credentials(&creds("admin", "1234567")), "password must be at least 8 characters");
    assert!(validate_credentials(&creds("admin", "éééé")).is_ok());
}

#[test]
fn setup_then_login() {
    let mut users = UserStore(UsersFile { users: Vec::new() });
    bad(login_user(&users, "admin"), "no users exist; complete setup first");
    let (needs_setup, who) = auth_status(&users, None);
    assert!(needs_setup && who.is_none());
    assert!(check_setup(&users, &creds("admin", "password1")).is_ok());
    let u = setup_admin(&mut users, &creds(" Admin ", "password1"), "hash".to_string()).unwrap();
    assert_eq!(u.username, "Admin");
    assert!(u.is_admin);
    assert_eq!(u.password_hash, "hash");
    match check_setup(&users, &creds("x", "password1")) {
        Err(AppError::Conflict(m)) => assert_eq!(m, "setup is closed; admin already exists"),
        other => panic!("unexpected {other:?}"),
    }
    assert!(matches!(setup_admin(&mut users, &creds("x", "password1"), "h".to_string()), Err(AppError::Conflict(_))));
    assert_eq!(login_user(&users, "ADMIN").unwrap().id, u.id);
    assert!(matches!(login_user(&users, "nobody"), Err(AppError::Unauthorized)));
    assert_eq!(authenticate(&users, Some(u.id)).unwrap().username, "Admin");
    assert!(matches!(authenticate(&users, None), Err(AppError::Unauthorized)));
    assert!(matches!(authenticate(&users, Some(u.id + 1)), Err(AppError::Unauthorized)));
    let (needs_setup, who) = auth_status(&users, Some(u.id));
    assert!(!needs_setup);
    let v: UserView = who.unwrap();
    assert_eq!((v.id, v.username.as_str(), v.is_admin), (u.id, "Admin", true));
    let v2 = UserView::from(&u);
    assert_eq!(v2.username, "Admin");
}

#[test]
fn config_error_texts() {
    assert_eq!(
        ConfigError::InvalidPort(PortError::InvalidDigit).describe(),
        "invalid PORT: invalid digit found in string"
    );
    assert_eq!(ConfigError::InvalidPort(PortError::Empty).describe(), "invalid PORT: cannot parse integer from empty string");
    assert_eq!(
        ConfigError::InvalidPort(PortError::TooLarge).describe(),
        "invalid PORT: number too large to fit in target type"
    );
    assert_eq!(ConfigError::MissingSessionKey.describe(), "SESSION_KEY is required (>= 64 bytes of random data)");
    assert_eq!(ConfigError::SessionKeyTooShort(10).describe(), "SESSION_KEY must decode to at least 64 bytes (got 10)");
    match Config::from_values(None, Some("70000".into()), None, None, None) {
        Err(e) => assert_eq!(e.describe(), "invalid PORT: number too large to fit in target type"),
        Ok(_) => panic!("port above 65535 accepted"),
    }
}

#[test]
fn error_statuses() {
    assert_eq!(AppError::NotFound.status(), 404);
    assert_eq!(AppError::Unauthorized.status(), 401);
    assert_eq!(AppError::BadRequest("b".to_string()).status(), 400);
    assert_eq!(AppError::Multipart("m".to_string()).status(), 400);
    assert_eq!(AppError::Conflict("c".to_string()).status(), 409);
    assert_eq!(AppError::Internal("i".to_string()).status(), 500);
    assert_eq!(AppError::Io("o".to_string()).status(), 500);
}
