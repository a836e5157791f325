use filen_relay::auth::{
    find_owned, is_user_allowed, login_failure_message, session_token_from_cookie,
    states_for_user,
};
use filen_relay::common::{ServerId, ServerSpec, ServerState, ServerStatus, ServerType};

fn owned_state(full_id: &str, email: &str) -> ServerState {
    ServerState {
        spec: ServerSpec {
            id: ServerId::from_string(full_id.to_string()),
            name: "n".to_string(),
            server_type: ServerType::Ftp,
            root: "/".to_string(),
            read_only: false,
            password: None,
            filen_email: email.to_string(),
            filen_password: "pw".to_string(),
            filen_2fa_code: None,
        },
        logs_id: "logs".to_string(),
        status: ServerStatus::Starting,
    }
}

#[test]
fn everyone_is_allowed_while_the_list_is_empty() {
    let allowed: Vec<String> = Vec::new();
    assert!(is_user_allowed(&allowed, "anyone@example.com", None));
}

#[test]
fn only_listed_users_and_the_admin_pass_a_nonempty_list() {
    let allowed = vec!["a@example.com".to_string(), "b@example.com".to_string()];
    assert!(is_user_allowed(&allowed, "a@example.com", None));
    assert!(is_user_allowed(&allowed, "b@example.com", Some("root@example.com")));
    assert!(is_user_allowed(&allowed, "root@example.com", Some("root@example.com")));
    assert!(!is_user_allowed(&allowed, "c@example.com", None));
    assert!(!is_user_allowed(&allowed, "c@example.com", Some("root@example.com")));
}

#[test]
fn login_failure_messages_by_error_code() {
    assert_eq!(login_failure_message(Some("enter_2fa")), "2FA required");
    assert_eq!(
        login_failure_message(Some("email_or_password_wrong")),
        "Email or password wrong"
    );
    assert_eq!(
        login_failure_message(Some("mystery")),
        "Failed to log in (code mystery)"
    );
    assert_eq!(login_failure_message(None), "Failed to log in (code )");
}

#[test]
fn users_see_only_their_own_rows_in_order() {
    let states = vec![
        owned_state("a-1", "me@example.com"),
        owned_state("b-2", "you@example.com"),
        owned_state("c-3", "me@example.com"),
    ];
    let mine = states_for_user(&states, "me@example.com");
    assert_eq!(mine.len(), 2);
    assert_eq!(mine[0].spec.id.to_text(), "a-1");
    assert_eq!(mine[1].spec.id.to_text(), "c-3");
    let theirs = states_for_user(&states, "you@example.com");
    assert_eq!(theirs.len(), 1);
    let nobodys = states_for_user(&states, "nobody@example.com");
    assert!(nobodys.is_empty());
}

#[test]
fn session_token_is_read_from_the_cookie_header() {
    assert_eq!(
        session_token_from_cookie("Session=abc123").as_deref(),
        Some("abc123")
    );
    assert_eq!(
        session_token_from_cookie("theme=dark; Session=tok-1; lang=en").as_deref(),
        Some("tok-1")
    );
    // entries are trimmed of surrounding blanks before the name is read
    assert_eq!(
        session_token_from_cookie("theme=dark;  Session=padded ").as_deref(),
        Some("padded")
    );
    // the first Session entry decides
    assert_eq!(
        session_token_from_cookie("Session=first; Session=second").as_deref(),
        Some("first")
    );
    // the value is everything after the first '='
    assert_eq!(
        session_token_from_cookie("Session=a=b").as_deref(),
        Some("a=b")
    );
}

#[test]
fn headers_without_a_session_entry_yield_nothing() {
    assert!(session_token_from_cookie("").is_none());
    assert!(session_token_from_cookie("theme=dark; lang=en").is_none());
    assert!(session_token_from_cookie("SessionX=1").is_none());
    assert!(session_token_from_cookie("session=lowercase").is_none());
    assert!(session_token_from_cookie("Session").is_none());
    assert!(session_token_from_cookie(" ; ; ").is_none());
}

#[test]
fn removal_requires_ownership() {
    let states = vec![owned_state("a-1", "me@example.com")];
    let id = ServerId::from_string("a-1".to_string());
    assert!(find_owned(&states, &id, "me@example.com"));
    assert!(!find_owned(&states, &id, "you@example.com"));
    assert!(!find_owned(&states, &ServerId::from_string("b-2".to_string()), "me@example.com"));
}
