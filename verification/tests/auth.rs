use hmac::{Hmac, Mac};
use ggok::auth::{
    bearer_token, constant_time_eq, cookie_from_header, cookie_name_for_bind, port_of_bind,
    sign_cookie, too_many, unauthorized, verify_cookie, COOKIE_TTL_SECS,
};

#[test]
fn signed_cookie_round_trip() {
    let key = [7u8; 32];
    let now = 1_700_000_000i64;
    let v = sign_cookie(&key, now);
    let (exp, sig) = v.split_once('.').unwrap();
    assert_eq!(exp, (now + COOKIE_TTL_SECS).to_string());
    assert_eq!(sig.len(), 64);
    assert!(sig.chars().all(|c| c.is_ascii_digit() || ('a'..='f').contains(&c)));
    assert!(verify_cookie(&key, &v, now));
    assert!(verify_cookie(&key, &v, now + COOKIE_TTL_SECS));
    assert!(!verify_cookie(&key, &v, now + COOKIE_TTL_SECS + 1));
    assert!(!verify_cookie(&[8u8; 32], &v, now));
    let mut tampered = v.clone();
    tampered.replace_range(0..1, if v.starts_with('1') { "2" } else { "1" });
    assert!(!verify_cookie(&key, &tampered, now));
    assert!(!verify_cookie(&key, "nodot", now));
    assert!(!verify_cookie(&key, "123.zz", 0));
}

#[test]
fn signature_matches_hmac_sha256() {
    let key = [1u8; 32];
    let v = sign_cookie(&key, 0);
    let mut mac = Hmac::<sha2::Sha256>::new_from_slice(&key).unwrap();
    mac.update(COOKIE_TTL_SECS.to_string().as_bytes());
    let want = hex::encode(mac.finalize().into_bytes());
    assert_eq!(v, format!("{}.{}", COOKIE_TTL_SECS, want));
}

#[test]
fn token_comparison() {
    assert!(constant_time_eq("secret", "secret"));
    assert!(!constant_time_eq("secret", "secreT"));
    assert!(!constant_time_eq("secret", "secret2"));
    assert!(constant_time_eq("", ""));
}

#[test]
fn ports_and_cookie_names() {
    assert_eq!(port_of_bind("0.0.0.0:9888"), Some(9888));
    assert_eq!(port_of_bind("[::]:8080"), Some(8080));
    assert_eq!(port_of_bind(" localhost "), None);
    assert_eq!(port_of_bind(""), None);
    assert_eq!(port_of_bind("h:70000"), None);
    assert_eq!(cookie_name_for_bind("0.0.0.0:9888"), "ggok_9888");
    assert_eq!(cookie_name_for_bind("h:0"), "ggok");
    assert_eq!(cookie_name_for_bind("h"), "ggok");
}

#[test]
fn headers() {
    assert_eq!(cookie_from_header(Some("a=1; ggok_9888=v.x; b=2"), "ggok_9888").as_deref(), Some("v.x"));
    assert_eq!(cookie_from_header(Some("a=1"), "ggok"), None);
    assert_eq!(cookie_from_header(None, "ggok"), None);
    assert_eq!(bearer_token(Some("Bearer abc")).as_deref(), Some("abc"));
    assert_eq!(bearer_token(Some("bearer abc")).as_deref(), Some("abc"));
    assert_eq!(bearer_token(Some("Basic abc")), None);
    assert_eq!(unauthorized().0, 401);
    assert_eq!(too_many().0, 429);
}
