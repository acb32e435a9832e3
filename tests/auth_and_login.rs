use photo4share::auth::{verify_cookie_key, verify_user_sent_key};
use photo4share::login::{csrf_token_from, generate_csrf_token, process_login, show_login_form};
use photo4share::login::{LoginOutcome, LoginPage};
use photo4share::models::{AppState, LoginForm};

fn state() -> AppState {
    AppState {
        share_dir: "/srv/share".to_string(),
        share_key: "s3cret".to_string(),
        greet: "Hello".to_string(),
    }
}

#[test]
fn key_accepted_only_on_exact_match() {
    assert!(verify_user_sent_key("s3cret", "s3cret"));
    assert!(!verify_user_sent_key("s3cres", "s3cret"));
    assert!(!verify_user_sent_key("x3cret", "s3cret"));
    assert!(!verify_user_sent_key("s3cret ", "s3cret"));
    assert!(!verify_user_sent_key("s3cre", "s3cret"));
    assert!(!verify_user_sent_key("", "s3cret"));
    assert!(!verify_user_sent_key("s3cret", ""));
    assert!(verify_user_sent_key("", ""));
    assert!(verify_user_sent_key("ключ", "ключ"));
}

#[test]
fn cookie_key_needs_a_cookie() {
    assert!(verify_cookie_key(Some("s3cret"), "s3cret"));
    assert!(!verify_cookie_key(Some("wrong"), "s3cret"));
    assert!(!verify_cookie_key(None, "s3cret"));
}

#[test]
fn csrf_token_layout() {
    let zeros = [0u8; 32];
    let t0 = csrf_token_from(zeros, 0);
    assert_eq!(t0, format!("{}AA==", "A".repeat(52)));
    let t1 = csrf_token_from(zeros, 1);
    assert_eq!(t1, format!("{}AQ==", "A".repeat(52)));
    let mut random = [0u8; 32];
    random[0] = 0xfb;
    random[1] = 0xff;
    let t2 = csrf_token_from(random, 0);
    assert!(t2.starts_with("-_8"));
    assert_eq!(t2.len(), 56);
}

#[test]
fn generated_tokens_differ() {
    let a = generate_csrf_token(1_700_000_000);
    let b = generate_csrf_token(1_700_000_000);
    assert_eq!(a.len(), 56);
    assert_ne!(a, b);
}

#[test]
fn login_form_shows_fresh_token() {
    match show_login_form(&state(), None, 5) {
        LoginPage::Form { page } => {
            assert_eq!(page.error, "");
            assert_eq!(page.csrf_token.len(), 56);
        }
        LoginPage::AlreadySignedIn => panic!("not signed in"),
    }
    assert!(matches!(
        show_login_form(&state(), Some("s3cret"), 5),
        LoginPage::AlreadySignedIn
    ));
}

#[test]
fn login_with_matching_token_and_right_key_signs_in() {
    let form = LoginForm { key: "s3cret".to_string(), csrf_token: "tok".to_string() };
    match process_login(&state(), None, Some("tok"), form, 7) {
        LoginOutcome::SignedIn { session_key } => assert_eq!(session_key, "s3cret"),
        _ => panic!("expected sign-in"),
    }
}

#[test]
fn login_with_wrong_key_retries() {
    let form = LoginForm { key: "nope".to_string(), csrf_token: "tok".to_string() };
    match process_login(&state(), None, Some("tok"), form, 7) {
        LoginOutcome::Retry { page } => {
            assert!(page.error.starts_with("Хибний ключ доступу"));
            assert_eq!(page.csrf_token.len(), 56);
            assert_ne!(page.csrf_token, "tok");
        }
        _ => panic!("expected retry"),
    }
}

#[test]
fn login_with_stale_token_is_refused_even_with_right_key() {
    let first = match show_login_form(&state(), None, 1) {
        LoginPage::Form { page } => page.csrf_token,
        LoginPage::AlreadySignedIn => panic!("not signed in"),
    };
    let second = match show_login_form(&state(), None, 2) {
        LoginPage::Form { page } => page.csrf_token,
        LoginPage::AlreadySignedIn => panic!("not signed in"),
    };
    let form = LoginForm { key: "s3cret".to_string(), csrf_token: first };
    match process_login(&state(), None, Some(second.as_str()), form, 3) {
        LoginOutcome::Retry { page } => {
            assert!(page.error.starts_with("Помилка безпеки"));
            assert_ne!(page.csrf_token, second);
        }
        _ => panic!("expected refusal"),
    }
}

#[test]
fn login_without_csrf_cookie_is_refused() {
    let form = LoginForm { key: "s3cret".to_string(), csrf_token: "tok".to_string() };
    assert!(matches!(
        process_login(&state(), None, None, form, 3),
        LoginOutcome::Retry { .. }
    ));
}

#[test]
fn signed_in_visitor_is_sent_to_listing() {
    let form = LoginForm { key: "x".to_string(), csrf_token: "a".to_string() };
    assert!(matches!(
        process_login(&state(), Some("s3cret"), Some("b"), form, 3),
        LoginOutcome::AlreadySignedIn
    ));
}
