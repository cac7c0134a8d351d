//! What can go wrong, and what is said about it.

use vstd::prelude::*;

verus! {

/// Why a request could not be carried out.
#[derive(Debug)]
pub enum Error {
    /// The resource holds no calendar.
    NoCalendar,
    /// The calendar holds no event.
    NoEvent,
    /// The series master has no UID.
    NoUid,
    /// The event does not recur.
    NotRecurring,
    /// A date-time that is neither RFC 3339 nor a naive date-time.
    BadDateTime(String),
    /// A value for an all-day series that is no date.
    BadDate(String),
    /// A start for an all-day occurrence that is no date.
    BadAllDayStart(String),
    /// A timestamp that is not RFC 3339.
    BadTimestamp(String),
    /// The server names no principal.
    NoPrincipal,
    /// The server names no calendar home.
    NoHome,
    /// No account was configured.
    NoEmail,
    /// No password was configured.
    NoPassword,
    /// No token was configured for clients to present.
    NoAuthToken,
}

/// What an [`Error`] holds.
pub enum ErrorView {
    NoCalendar,
    NoEvent,
    NoUid,
    NotRecurring,
    BadDateTime(Seq<char>),
    BadDate(Seq<char>),
    BadAllDayStart(Seq<char>),
    BadTimestamp(Seq<char>),
    NoPrincipal,
    NoHome,
    NoEmail,
    NoPassword,
    NoAuthToken,
}

impl View for Error {
    type V = ErrorView;

    open spec fn view(&self) -> ErrorView {
        match self {
            Error::NoCalendar => ErrorView::NoCalendar,
            Error::NoEvent => ErrorView::NoEvent,
            Error::NoUid => ErrorView::NoUid,
            Error::NotRecurring => ErrorView::NotRecurring,
            Error::BadDateTime(s) => ErrorView::BadDateTime(s@),
            Error::BadDate(s) => ErrorView::BadDate(s@),
            Error::BadAllDayStart(s) => ErrorView::BadAllDayStart(s@),
            Error::BadTimestamp(s) => ErrorView::BadTimestamp(s@),
            Error::NoPrincipal => ErrorView::NoPrincipal,
            Error::NoHome => ErrorView::NoHome,
            Error::NoEmail => ErrorView::NoEmail,
            Error::NoPassword => ErrorView::NoPassword,
            Error::NoAuthToken => ErrorView::NoAuthToken,
        }
    }
}

/// The message of an error.
pub open spec fn error_text(e: ErrorView) -> Seq<char> {
    match e {
        ErrorView::NoCalendar => "resource contained no VCALENDAR"@,
        ErrorView::NoEvent => "resource contained no VEVENT"@,
        ErrorView::NoUid => "master VEVENT has no UID"@,
        ErrorView::NotRecurring =>
            "event is not a recurring series; use delete_event to remove it entirely"@,
        ErrorView::BadDateTime(s) => "could not parse `"@ + s + "` as RFC3339 or naive date-time"@,
        ErrorView::BadDate(s) => "all-day series needs a `YYYY-MM-DD` value, got `"@ + s + "`"@,
        ErrorView::BadAllDayStart(s) => "all-day value must be `YYYY-MM-DD`, got `"@ + s + "`"@,
        ErrorView::BadTimestamp(s) => "could not parse timestamp `"@ + s + "` as RFC3339"@,
        ErrorView::NoPrincipal => "iCloud returned no current-user-principal"@,
        ErrorView::NoHome => "iCloud returned no calendar-home-set"@,
        ErrorView::NoEmail => "ICLOUD_EMAIL is required"@,
        ErrorView::NoPassword => "ICLOUD_APP_SPECIFIC_PASSWORD is required"@,
        ErrorView::NoAuthToken => "MCP_AUTH_TOKEN is required (server is internet-facing)"@,
    }
}

/// `before`, `quoted` and `after` as one string.
fn sentence(before: &str, quoted: &String, after: &str) -> (r: String)
    ensures
        r@ == before@ + quoted@ + after@,
{
    let mut out: String = before.to_owned();
    out.append(quoted.as_str());
    out.append(after);
    out
}

impl Error {
    /// The message for people.
    pub fn message(&self) -> (r: String)
        ensures
            r@ == error_text(self@),
    {
        match self {
            Error::NoCalendar => "resource contained no VCALENDAR".to_owned(),
            Error::NoEvent => "resource contained no VEVENT".to_owned(),
            Error::NoUid => "master VEVENT has no UID".to_owned(),
            Error::NotRecurring => {
                "event is not a recurring series; use delete_event to remove it entirely".to_owned()
            },
            Error::BadDateTime(s) => {
                sentence("could not parse `", s, "` as RFC3339 or naive date-time")
            },
            Error::BadDate(s) => {
                sentence("all-day series needs a `YYYY-MM-DD` value, got `", s, "`")
            },
            Error::BadAllDayStart(s) => {
                sentence("all-day value must be `YYYY-MM-DD`, got `", s, "`")
            },
            Error::BadTimestamp(s) => sentence("could not parse timestamp `", s, "` as RFC3339"),
            Error::NoPrincipal => "iCloud returned no current-user-principal".to_owned(),
            Error::NoHome => "iCloud returned no calendar-home-set".to_owned(),
            Error::NoEmail => "ICLOUD_EMAIL is required".to_owned(),
            Error::NoPassword => "ICLOUD_APP_SPECIFIC_PASSWORD is required".to_owned(),
            Error::NoAuthToken => {
                "MCP_AUTH_TOKEN is required (server is internet-facing)".to_owned()
            },
        }
    }
}

/// What a fallible text holds.
pub open spec fn text_result(r: Result<String, Error>) -> Result<Seq<char>, ErrorView> {
    match r {
        Ok(s) => Ok(s@),
        Err(e) => Err(e@),
    }
}

/// A message about a text quotes that text, and nothing else in it changes.
pub proof fn messages_quote_the_text(s: Seq<char>)
    ensures
        error_text(ErrorView::BadDateTime(s)) == "could not parse `"@ + s
            + "` as RFC3339 or naive date-time"@,
        error_text(ErrorView::BadDate(s)) == "all-day series needs a `YYYY-MM-DD` value, got `"@ + s
            + "`"@,
        error_text(ErrorView::BadAllDayStart(s)) == "all-day value must be `YYYY-MM-DD`, got `"@ + s
            + "`"@,
        error_text(ErrorView::BadTimestamp(s)) == "could not parse timestamp `"@ + s
            + "` as RFC3339"@,
{
}

/// A message about what is missing names it.
pub proof fn messages_name_what_is_missing()
    ensures
        error_text(ErrorView::NoCalendar) == "resource contained no VCALENDAR"@,
        error_text(ErrorView::NoEvent) == "resource contained no VEVENT"@,
        error_text(ErrorView::NoUid) == "master VEVENT has no UID"@,
        error_text(ErrorView::NotRecurring)
            == "event is not a recurring series; use delete_event to remove it entirely"@,
        error_text(ErrorView::NoPrincipal) == "iCloud returned no current-user-principal"@,
        error_text(ErrorView::NoHome) == "iCloud returned no calendar-home-set"@,
        error_text(ErrorView::NoEmail) == "ICLOUD_EMAIL is required"@,
        error_text(ErrorView::NoPassword) == "ICLOUD_APP_SPECIFIC_PASSWORD is required"@,
        error_text(ErrorView::NoAuthToken)
            == "MCP_AUTH_TOKEN is required (server is internet-facing)"@,
{
}

} // verus!
