//! The login handshake: CSRF tokens, the login form, and the decision on a
//! submitted form.

use crate::auth::{verify_cookie_key, verify_user_sent_key};
use crate::models::{AppState, LoginForm, LoginTemplate};
use base64::engine::general_purpose::URL_SAFE;
use base64::Engine;
use rand::Rng;
use vstd::prelude::*;

verus! {

/// `x` as eight big-endian bytes.
pub open spec fn be_bytes(x: u64) -> Seq<u8> {
    seq![
        ((x >> 56u64) & 0xffu64) as u8,
        ((x >> 48u64) & 0xffu64) as u8,
        ((x >> 40u64) & 0xffu64) as u8,
        ((x >> 32u64) & 0xffu64) as u8,
        ((x >> 24u64) & 0xffu64) as u8,
        ((x >> 16u64) & 0xffu64) as u8,
        ((x >> 8u64) & 0xffu64) as u8,
        (x & 0xffu64) as u8,
    ]
}

/// The bytes of a CSRF token: the random block, then the time of issue.
pub open spec fn token_bytes(random: Seq<u8>, issued_at: u64) -> Seq<u8> {
    random + be_bytes(issued_at)
}

/// `data` in padded URL-safe base64.
pub uninterp spec fn base64_url(data: Seq<u8>) -> Seq<char>;

/// A token minted at `issued_at` from some random block of 32 bytes.
pub open spec fn fresh_token(token: Seq<char>, issued_at: u64) -> bool {
    exists|random: Seq<u8>|
        random.len() == 32 && token == #[trigger] base64_url(token_bytes(random, issued_at))
}

/// The message shown when the submitted token does not match the cookie.
pub open spec fn csrf_error_text() -> Seq<char> {
    "Помилка безпеки: недійсний маркер CSRF. Спробуйте знову."@
}

/// The message shown when the key is wrong.
pub open spec fn invalid_key_text() -> Seq<char> {
    "Хибний ключ доступу. Впевніться що скопіювали його повністю без жодних додаткових символів та пробілів"@
}

/// Relies on base64's `URL_SAFE` engine (`-` and `_` alphabet, with padding).
#[verifier::external_body]
fn encode_url_safe(data: &[u8]) -> (r: String)
    ensures
        r@ == base64_url(data@),
{
    URL_SAFE.encode(data)
}

/// Relies on rand's thread-local generator (`rand::rng`) for 32 random bytes.
#[verifier::external_body]
fn random_block() -> (r: [u8; 32]) {
    rand::rng().random::<[u8; 32]>()
}

/// The CSRF token for a given random block and time of issue.
pub fn csrf_token_from(random: [u8; 32], issued_at: u64) -> (r: String)
    ensures
        r@ == base64_url(token_bytes(random@, issued_at)),
{
    let mut bytes: Vec<u8> = Vec::with_capacity(40);
    let mut i: usize = 0;
    while i < 32
        invariant
            i <= 32,
            bytes@ == random@.take(i as int),
        decreases 32 - i,
    {
        bytes.push(random[i]);
        proof {
            assert(bytes@ =~= random@.take(i + 1));
        }
        i = i + 1;
    }
    bytes.push(((issued_at >> 56u64) & 0xffu64) as u8);
    bytes.push(((issued_at >> 48u64) & 0xffu64) as u8);
    bytes.push(((issued_at >> 40u64) & 0xffu64) as u8);
    bytes.push(((issued_at >> 32u64) & 0xffu64) as u8);
    bytes.push(((issued_at >> 24u64) & 0xffu64) as u8);
    bytes.push(((issued_at >> 16u64) & 0xffu64) as u8);
    bytes.push(((issued_at >> 8u64) & 0xffu64) as u8);
    bytes.push((issued_at & 0xffu64) as u8);
    assert(bytes@ =~= token_bytes(random@, issued_at));
    encode_url_safe(bytes.as_slice())
}

/// Mints a CSRF token from 32 fresh random bytes and the time of issue in
/// seconds since the Unix epoch.
pub fn generate_csrf_token(issued_at: u64) -> (r: String)
    ensures
        fresh_token(r@, issued_at),
{
    let random = random_block();
    let r = csrf_token_from(random, issued_at);
    assert(random@.len() == 32);
    r
}

/// What the login form request leads to.
pub enum LoginPage {
    /// The session cookie already holds the key: go to the listing.
    AlreadySignedIn,
    /// Set the CSRF cookie to `page.csrf_token` and show the form.
    Form { page: LoginTemplate },
}

/// Shows the login form with a fresh token, unless the visitor is signed in.
pub fn show_login_form(state: &AppState, session_cookie: Option<&str>, now: u64) -> (r:
    LoginPage)
    ensures
        (session_cookie.is_some() && session_cookie.unwrap()@ == state.share_key@) ==> r is AlreadySignedIn,
        !(session_cookie.is_some() && session_cookie.unwrap()@ == state.share_key@) ==> (r matches LoginPage::Form { page }
            && page.error@.len() == 0 && fresh_token(page.csrf_token@, now)),
{
    if verify_cookie_key(session_cookie, state.share_key.as_str()) {
        return LoginPage::AlreadySignedIn;
    }
    LoginPage::Form { page: LoginTemplate { error: String::new(), csrf_token: generate_csrf_token(now) } }
}

/// What a submitted login form leads to.
pub enum LoginOutcome {
    /// The session cookie already holds the key: go to the listing.
    AlreadySignedIn,
    /// Clear the CSRF cookie, set the session cookie to `session_key`, and go
    /// to the listing.
    SignedIn { session_key: String },
    /// Set the CSRF cookie to `page.csrf_token` and show the form again with
    /// `page.error`.
    Retry { page: LoginTemplate },
}

/// Whether the submitted token equals the one in the CSRF cookie.
pub open spec fn csrf_matches(csrf_cookie: Option<&str>, form: LoginForm) -> bool {
    csrf_cookie.is_some() && csrf_cookie.unwrap()@ == form.csrf_token@
}

/// Decides on a submitted login form. A visitor already signed in is sent to
/// the listing. A token that differs from the cookie, or a missing cookie, is
/// refused with a generic message and a new token, whatever the key. A
/// matching token with the right key signs in; with a wrong key the form is
/// shown again with a new token.
pub fn process_login(
    state: &AppState,
    session_cookie: Option<&str>,
    csrf_cookie: Option<&str>,
    form: LoginForm,
    now: u64,
) -> (r: LoginOutcome)
    ensures
        (session_cookie.is_some() && session_cookie.unwrap()@ == state.share_key@) ==> r is AlreadySignedIn,
        !(session_cookie.is_some() && session_cookie.unwrap()@ == state.share_key@) && !csrf_matches(csrf_cookie, form) ==> (r matches LoginOutcome::Retry { page }
            && page.error@ == csrf_error_text() && fresh_token(page.csrf_token@, now)),
        !(session_cookie.is_some() && session_cookie.unwrap()@ == state.share_key@) && csrf_matches(csrf_cookie, form)
            && form.key@ == state.share_key@ ==> (r matches LoginOutcome::SignedIn { session_key }
            && session_key@ == form.key@),
        !(session_cookie.is_some() && session_cookie.unwrap()@ == state.share_key@) && csrf_matches(csrf_cookie, form)
            && form.key@ != state.share_key@ ==> (r matches LoginOutcome::Retry { page }
            && page.error@ == invalid_key_text() && fresh_token(page.csrf_token@, now)),
{
    if verify_cookie_key(session_cookie, state.share_key.as_str()) {
        return LoginOutcome::AlreadySignedIn;
    }
    let token_ok = match csrf_cookie {
        Some(stored) => {
            let submitted: &str = form.csrf_token.as_str();
            verify_user_sent_key(stored, submitted)
        },
        None => false,
    };
    if !token_ok {
        let error = "Помилка безпеки: недійсний маркер CSRF. Спробуйте знову.".to_owned();
        return LoginOutcome::Retry { page: LoginTemplate { error, csrf_token: generate_csrf_token(now) } };
    }
    if verify_user_sent_key(form.key.as_str(), state.share_key.as_str()) {
        LoginOutcome::SignedIn { session_key: form.key }
    } else {
        let error = "Хибний ключ доступу. Впевніться що скопіювали його повністю без жодних додаткових символів та пробілів".to_owned();
        LoginOutcome::Retry { page: LoginTemplate { error, csrf_token: generate_csrf_token(now) } }
    }
}

} // verus!
