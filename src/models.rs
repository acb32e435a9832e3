//! The values that the handlers exchange with the pages and forms around them.

use vstd::prelude::*;

verus! {

/// The configuration every request reads: the shared directory, the shared
/// secret, and the greeting shown above the listing.
pub struct AppState {
    pub share_dir: String,
    pub share_key: String,
    pub greet: String,
}

/// The login page: an error line (empty on first showing) and the CSRF token
/// echoed in a hidden field.
pub struct LoginTemplate {
    pub error: String,
    pub csrf_token: String,
}

/// A submitted login form.
pub struct LoginForm {
    pub key: String,
    pub csrf_token: String,
}

/// The listing page: the eligible file names and the greeting.
pub struct ListTemplate {
    pub files: Vec<String>,
    pub greet: String,
}

/// An error page: the status code as text and a message.
pub struct ErrorTemplate {
    pub error_code: String,
    pub error_message: String,
}

} // verus!
