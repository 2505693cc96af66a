use hmac::Mac;
use sfu_core::auth::{check_length, generate_secret_token, ApiInfo, ApplicationError};
use sfu_core::ice::{
    _generate_coturn_credential, browser_ice_server, create_ice_server_config,
    create_ice_server_config_for_browser, expiration_hours_of, generate_coturn_credential,
    IceCredentialType, IceServerConfig,
};

fn reference_credential(secret: &str, username: &str) -> String {
    let mut mac = hmac::Hmac::<sha1::Sha1>::new_from_slice(secret.as_bytes()).unwrap();
    mac.update(username.as_bytes());
    base64::encode(mac.finalize().into_bytes())
}

#[test]
fn coturn_credential_is_hmac_sha1_of_username() {
    let (username, credential) = _generate_coturn_credential("mysecret", "sfu", 1000, 3600);
    assert_eq!(username, "4600:sfu");
    assert_eq!(credential, reference_credential("mysecret", "4600:sfu"));
}

#[test]
fn coturn_username_parses_back() {
    let (username, credential) = generate_coturn_credential("k", "client", 7200);
    let (expiry, name) = username.split_once(':').unwrap();
    assert!(expiry.parse::<u64>().is_ok());
    assert_eq!(name, "client");
    assert_eq!(credential, reference_credential("k", &username));
}

#[test]
fn ice_config_stun_only() {
    let cfg = create_ice_server_config("sfu", "stun.example.org:3478", None, None, 3);
    assert_eq!(cfg.len(), 1);
    assert_eq!(cfg[0].urls, vec!["stun:stun.example.org:3478".to_string()]);
    assert_eq!(cfg[0].username, "");
    assert_eq!(cfg[0].credential, "");
    assert!(matches!(cfg[0].credential_type, IceCredentialType::Unspecified));
}

#[test]
fn ice_config_with_turn() {
    let cfg = create_ice_server_config(
        "sfu",
        "stun.example.org:3478",
        Some("turn.example.org:3478".to_string()),
        Some("sharedsecret".to_string()),
        3,
    );
    assert_eq!(cfg.len(), 2);
    assert_eq!(cfg[1].urls, vec!["turn:turn.example.org:3478".to_string()]);
    assert!(matches!(cfg[1].credential_type, IceCredentialType::Password));
    let (expiry, name) = cfg[1].username.split_once(':').unwrap();
    assert!(expiry.parse::<u64>().is_ok());
    assert_eq!(name, "sfu");
    assert_eq!(cfg[1].credential, reference_credential("sharedsecret", &cfg[1].username));
}

#[test]
fn browser_config_hides_empty_credentials() {
    let cfg = create_ice_server_config_for_browser("client", "s.example:1", None, None, 3);
    assert_eq!(cfg.len(), 1);
    assert_eq!(cfg[0].urls, vec!["stun:s.example:1".to_string()]);
    assert!(cfg[0].username.is_none());
    assert!(cfg[0].credential.is_none());
    assert_eq!(cfg[0].credential_type, "password");
}

#[test]
fn browser_config_with_turn_has_credentials() {
    let cfg = create_ice_server_config_for_browser(
        "client",
        "s.example:1",
        Some("t.example:2".to_string()),
        Some("secret".to_string()),
        1,
    );
    assert_eq!(cfg.len(), 2);
    assert_eq!(cfg[1].urls, vec!["turn:t.example:2".to_string()]);
    let username = cfg[1].username.clone().unwrap();
    assert!(username.ends_with(":client"));
    assert_eq!(cfg[1].credential.clone().unwrap(), reference_credential("secret", &username));
    assert_eq!(cfg[1].credential_type, "password");
}

#[test]
fn browser_entry_maps_oauth_keyword() {
    let entry = IceServerConfig {
        urls: vec!["turn:x".to_string()],
        username: "u".to_string(),
        credential: "c".to_string(),
        credential_type: IceCredentialType::Oauth,
    };
    let b = browser_ice_server(entry);
    assert_eq!(b.credential_type, "oauth");
    assert_eq!(b.username.unwrap(), "u");
    assert_eq!(b.credential.unwrap(), "c");
}

#[test]
fn expiration_hours_defaults() {
    assert_eq!(expiration_hours_of(None), 3);
    assert_eq!(expiration_hours_of(Some("5".to_string())), 5);
    assert_eq!(expiration_hours_of(Some("oops".to_string())), 3);
}

#[test]
fn check_length_rejects_empty() {
    match check_length("", "room_name", 30) {
        Err(ApplicationError::InputCheck(m)) => assert_eq!(m, "room_name is empty."),
        other => panic!("expected an input check error, got {:?}", other),
    }
}

#[test]
fn check_length_rejects_too_long() {
    let name = "x".repeat(31);
    match check_length(&name, "member_name", 30) {
        Err(ApplicationError::InputCheck(m)) => {
            assert_eq!(m, "member_name must be no more than 30 characters.")
        },
        other => panic!("expected an input check error, got {:?}", other),
    }
}

#[test]
fn check_length_accepts_fitting_names() {
    assert!(check_length("lounge", "room_name", 30).is_ok());
    assert!(check_length(&"y".repeat(30), "room_name", 30).is_ok());
}

#[test]
fn secret_token_is_base64_of_32_bytes() {
    let t = generate_secret_token();
    assert_eq!(t.len(), 44);
    let bytes = base64::decode(&t).unwrap();
    assert_eq!(bytes.len(), 32);
}

#[test]
fn secret_tokens_differ() {
    assert_ne!(generate_secret_token(), generate_secret_token());
}

#[test]
fn auth_error_status_codes() {
    assert_eq!(ApplicationError::InputCheck("m".to_string()).status_code(), 400);
    assert_eq!(ApplicationError::MessageAndStatus("m".to_string(), 404).status_code(), 404);
    assert_eq!(ApplicationError::MessageAndStatus("m".to_string(), 99).status_code(), 500);
    assert_eq!(ApplicationError::JWKSFetchError.status_code(), 500);
    assert_eq!(ApplicationError::Message("m".to_string()).status_code(), 500);
}

#[test]
fn auth_error_messages() {
    assert_eq!(ApplicationError::InputCheck("bad".to_string()).error_message(), "bad");
    assert_eq!(
        ApplicationError::MessageAndStatus("gone".to_string(), 404).error_message(),
        "gone"
    );
    assert_eq!(ApplicationError::JWKSFetchError.error_message(), "Internal Server Error");
}

#[test]
fn api_info_carries_values() {
    let a = ApiInfo::new("d".to_string(), "c".to_string(), "a".to_string());
    assert_eq!(a.domain, "d");
    assert_eq!(a.client_id, "c");
    assert_eq!(a.audience, "a");
}
