use axum::http::{header, HeaderMap, HeaderValue};
use honeypot::addr::{IpAddr, Ipv4Addr};
use honeypot::admin::{
    access_granted, banned_list_password, banned_reply, bearer_password, endpoints, health_reply,
    invalid_password_reply, no_store_header, password_matches, refuse_unban, unban_password,
    unban_reply, UnbanResult,
};
use honeypot::ban::UnbanOutcome;
use honeypot::store::BanRecord;

const PASSWORD: &str = "correct horse battery staple";

fn values(headers: &HeaderMap) -> Vec<Vec<u8>> {
    headers
        .get_all(header::AUTHORIZATION)
        .iter()
        .map(|value| value.as_bytes().to_vec())
        .collect()
}

#[test]
fn password_match_requires_exact_content() {
    assert!(password_matches("secret", "secret"));
    assert!(!password_matches("secret", "Secret"));
    assert!(!password_matches("secret", "secret!"));
    assert!(!password_matches("", "secret"));
}

#[test]
fn bearer_password_is_case_insensitive_and_rejects_other_schemes() {
    let mut headers = HeaderMap::new();
    headers.insert(
        header::AUTHORIZATION,
        HeaderValue::from_static("bEaReR secret"),
    );
    assert_eq!(bearer_password(&values(&headers)).as_deref(), Some("secret"));

    headers.insert(
        header::AUTHORIZATION,
        HeaderValue::from_static("Basic secret"),
    );
    assert_eq!(bearer_password(&values(&headers)), None);

    headers.insert(
        header::AUTHORIZATION,
        HeaderValue::from_static("Bearer first"),
    );
    headers.append(
        header::AUTHORIZATION,
        HeaderValue::from_static("Bearer second"),
    );
    assert_eq!(bearer_password(&values(&headers)), None);
}

#[test]
fn header_values_are_text_exactly_when_the_header_library_says_so() {
    for byte in 0..=255u8 {
        let mut bytes = b"Bearer a".to_vec();
        bytes.push(byte);
        let Ok(value) = HeaderValue::from_bytes(&bytes) else {
            continue;
        };
        let expected = value.to_str().ok().map(|text| text["Bearer ".len()..].to_string());
        assert_eq!(bearer_password(&vec![bytes]), expected);
    }
}

#[test]
fn credentials_are_what_follows_the_first_space() {
    let one = |text: &str| bearer_password(&vec![text.as_bytes().to_vec()]);
    assert_eq!(one("Bearer  two  spaces").as_deref(), Some(" two  spaces"));
    assert_eq!(one("Bearer "), None);
    assert_eq!(one("Bearer"), None);
    assert_eq!(one(" Bearer x"), None);
    assert_eq!(one(""), None);
    assert_eq!(bearer_password(&Vec::new()), None);
}

#[test]
fn banned_list_uses_bearer_and_disables_legacy_query_by_default() {
    let query = Some(PASSWORD.to_string());
    let provided = banned_list_password(None, query, false);
    assert!(!access_granted(&provided, PASSWORD));

    let bearer = bearer_password(&vec![b"Bearer correct horse battery staple".to_vec()]);
    let provided = banned_list_password(bearer, None, false);
    assert!(access_granted(&provided, PASSWORD));
}

#[test]
fn banned_list_allows_query_password_only_when_legacy_mode_is_enabled() {
    let provided = banned_list_password(None, Some(PASSWORD.to_string()), true);
    assert!(access_granted(&provided, PASSWORD));
    let provided = banned_list_password(Some("wrong".to_string()), Some(PASSWORD.to_string()), true);
    assert!(!access_granted(&provided, PASSWORD));
}

#[test]
fn post_unban_accepts_optional_body_password() {
    let provided = unban_password(None, Some(PASSWORD.to_string()));
    assert_eq!(refuse_unban(&provided, PASSWORD), None);
    let ip = IpAddr::V4(Ipv4Addr::new(203, 0, 113, 10));
    let reply = unban_reply(ip, UnbanResult::Done { outcome: UnbanOutcome::NotBanned });
    assert_eq!(reply.status, 404);
    assert!(!reply.ok);
    assert_eq!(reply.message, "203.0.113.10 is not banned");

    let provided = unban_password(Some("wrong".to_string()), Some(PASSWORD.to_string()));
    assert_eq!(refuse_unban(&provided, PASSWORD), Some(invalid_password_reply()));
    assert_eq!(refuse_unban(&None, PASSWORD), Some(invalid_password_reply()));
}

#[test]
fn releases_are_answered_by_their_outcome() {
    let ip = IpAddr::V4(Ipv4Addr::new(203, 0, 113, 10));
    let reply = unban_reply(ip, UnbanResult::Done { outcome: UnbanOutcome::Unbanned });
    assert_eq!((reply.status, reply.ok), (200, true));
    assert_eq!(reply.message, "203.0.113.10 unbanned");
    let reply = unban_reply(ip, UnbanResult::Failed);
    assert_eq!((reply.status, reply.ok), (500, false));
    assert_eq!(reply.message, "failed to unban ip");
    let reply = invalid_password_reply();
    assert_eq!((reply.status, reply.ok), (401, false));
    assert_eq!(reply.message, "invalid password");
    let reply = health_reply();
    assert_eq!((reply.status, reply.ok), (200, true));
    assert_eq!(reply.message, "ok");
}

#[test]
fn the_list_is_shown_only_to_those_let_in() {
    let ip = IpAddr::V4(Ipv4Addr::new(203, 0, 113, 10));
    let reply = banned_reply(true, vec![BanRecord::new(ip, "test")]);
    assert_eq!((reply.status, reply.ok, reply.banned_count), (200, true, 1));
    assert_eq!(reply.ips[0].ip, ip);
    let reply = banned_reply(false, vec![BanRecord::new(ip, "test")]);
    assert_eq!((reply.status, reply.ok, reply.banned_count), (401, false, 0));
    assert!(reply.ips.is_empty());
}

#[test]
fn passwords_of_any_text_are_compared() {
    assert!(password_matches("пароль-密码", "пароль-密码"));
    assert!(!password_matches("пароль", "пароля"));
    assert!(!password_matches("a\0", "a"));
    assert!(password_matches("", ""));
}

#[test]
fn a_release_by_get_is_served_only_in_legacy_mode() {
    let served = |legacy: bool| -> Vec<String> {
        endpoints(legacy)
            .iter()
            .map(|endpoint| format!("{} {}", endpoint.method(), endpoint.path()))
            .collect()
    };
    assert_eq!(served(false), vec!["GET /health", "POST /unban", "GET /banned"]);
    assert_eq!(
        served(true),
        vec!["GET /health", "POST /unban", "GET /banned", "GET /unban"]
    );
}

#[test]
fn no_answer_is_to_be_kept() {
    assert_eq!(no_store_header(), ("cache-control", "no-store"));
    assert_eq!(health_reply().header(), ("cache-control", "no-store"));
    assert_eq!(
        banned_reply(false, Vec::new()).header(),
        ("cache-control", "no-store")
    );
}
