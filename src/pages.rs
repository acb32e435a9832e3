//! Decisions of the listing, download and error pages.

use crate::archive::{in_name_keys_order, sort_names};
use crate::auth::verify_cookie_key;
use crate::models::{AppState, ErrorTemplate, ListTemplate};
use crate::paths::{hidden_name, is_hidden_name};
use crate::text::{decimal, decimal_string, two_digit_string, two_digits};
use vstd::prelude::*;

verus! {

/// What a listing request leads to.
pub enum IndexPage {
    /// No valid session cookie: go to the login form.
    RedirectToLogin,
    /// Show the listing.
    Listing { page: ListTemplate },
}

/// The names that are not hidden, in their order.
pub open spec fn visible(names: Seq<String>) -> Seq<String> {
    names.filter(|n: String| !hidden_name(n@))
}

/// The names that are not hidden, in their order.
pub fn visible_names(names: &Vec<String>) -> (r: Vec<String>)
    ensures
        r@ == visible(names@),
{
    let mut out: Vec<String> = Vec::new();
    let mut i: usize = 0;
    proof {
        assert(names@.take(0) =~= Seq::<String>::empty());
    }
    while i < names.len()
        invariant
            i <= names@.len(),
            out@ == visible(names@.take(i as int)),
        decreases names@.len() - i,
    {
        proof {
            assert(names@.take(i + 1).drop_last() =~= names@.take(i as int));
            assert(names@.take(i + 1).last() == names@[i as int]);
        }
        let hidden = is_hidden_name(names[i].as_str());
        if !hidden {
            out.push(names[i].clone());
        }
        proof {
            let t = names@.take(i + 1);
            assert(t.len() > 0);
            reveal_with_fuel(Seq::filter, 1);
            if hidden {
                assert(visible(t) == visible(t.drop_last()));
            } else {
                assert(visible(t) == visible(t.drop_last()).push(t.last()));
            }
        }
        i = i + 1;
    }
    proof {
        assert(names@.take(names@.len() as int) =~= names@);
    }
    out
}

/// The listing: behind the session cookie, the given entry names without the
/// hidden ones, sorted byte-wise, and the greeting.
pub fn index(state: &AppState, session_cookie: Option<&str>, names: &Vec<String>) -> (r: IndexPage)
    ensures
        !(session_cookie.is_some() && session_cookie.unwrap()@ == state.share_key@) ==> r is RedirectToLogin,
        (session_cookie.is_some() && session_cookie.unwrap()@ == state.share_key@) ==> (r matches IndexPage::Listing { page }
            && in_name_keys_order(page.files@, visible(names@)) && page.greet@ == state.greet@),
{
    if !verify_cookie_key(session_cookie, state.share_key.as_str()) {
        return IndexPage::RedirectToLogin;
    }
    let shown = visible_names(names);
    IndexPage::Listing { page: ListTemplate { files: sort_names(&shown), greet: state.greet.clone() } }
}

/// The error page for a status code and a message.
pub fn error_response(status: u16, message: &str) -> (r: ErrorTemplate)
    ensures
        r.error_code@ == decimal(status as nat),
        r.error_message@ == message@,
{
    ErrorTemplate { error_code: decimal_string(status as u32), error_message: message.to_owned() }
}

/// The page for a path that matches no route.
pub fn handle_404() -> (r: ErrorTemplate)
    ensures
        r.error_code@ == "404"@,
        r.error_message@ == "Page not found"@,
{
    let r = error_response(404, "Page not found");
    proof {
        reveal_strlit("404");
        assert(decimal(4) =~= seq!['4']);
        assert(decimal(40) =~= seq!['4', '0']);
        assert(decimal(404) =~= seq!['4', '0', '4']);
        assert(decimal(404) =~= "404"@);
    }
    r
}

/// The `Content-Disposition` value that offers `filename` as a download.
pub open spec fn attachment(filename: Seq<char>) -> Seq<char> {
    "attachment; filename=\""@ + filename + "\""@
}

/// The `Content-Disposition` value for a download named `filename`.
pub fn attachment_disposition(filename: &str) -> (r: String)
    ensures
        r@ == attachment(filename@),
{
    "attachment; filename=\"".to_owned().concat(filename).concat("\"")
}

/// A calendar day.
#[derive(Clone, Copy, Debug, PartialEq, Eq)]
pub struct CalendarDate {
    pub year: i32,
    pub month: u32,
    pub day: u32,
}

impl CalendarDate {
    /// A month of the year and a day of a month.
    pub open spec fn wf(self) -> bool {
        1 <= self.month <= 12 && 1 <= self.day <= 31
    }
}

/// The year within its century, as `%y` prints it.
pub open spec fn year_in_century(year: int) -> nat {
    (year % 100) as nat
}

/// The name the archive is downloaded under: `DD.MM.YY_files.zip`.
pub open spec fn archive_name(date: CalendarDate) -> Seq<char> {
    two_digits(date.day as nat) + "."@ + two_digits(date.month as nat) + "."@ + two_digits(
        year_in_century(date.year as int),
    ) + "_files.zip"@
}

/// The file name the archive is offered under on `date`.
pub fn archive_download_name(date: CalendarDate) -> (r: String)
    requires
        date.wf(),
    ensures
        r@ == archive_name(date),
{
    let yy: i32 = ((date.year % 100) + 100) % 100;
    assert(yy as int == date.year as int % 100);
    two_digit_string(date.day).concat(".").concat(two_digit_string(date.month).as_str()).concat(
        ".",
    ).concat(two_digit_string(yy as u32).as_str()).concat("_files.zip")
}

} // verus!
