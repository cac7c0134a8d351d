//! What the server is configured with.

use vstd::prelude::*;

use crate::error::{Error, ErrorView};
use crate::icloud::{IcloudConfig, ICLOUD_CALDAV_URL};

verus! {

/// Where the server listens unless told otherwise.
pub const DEFAULT_BIND: &'static str = "0.0.0.0:8000";

/// The settings of the environment, each where it is set.
pub struct Environment {
    pub email: Option<String>,
    pub password: Option<String>,
    pub auth_token: Option<String>,
    pub base_url: Option<String>,
    pub bind: Option<String>,
}

/// What an [`Environment`] holds.
pub struct EnvironmentView {
    pub email: Option<Seq<char>>,
    pub password: Option<Seq<char>>,
    pub auth_token: Option<Seq<char>>,
    pub base_url: Option<Seq<char>>,
    pub bind: Option<Seq<char>>,
}

impl View for Environment {
    type V = EnvironmentView;

    open spec fn view(&self) -> EnvironmentView {
        EnvironmentView {
            email: crate::model::text_view(self.email),
            password: crate::model::text_view(self.password),
            auth_token: crate::model::text_view(self.auth_token),
            base_url: crate::model::text_view(self.base_url),
            bind: crate::model::text_view(self.bind),
        }
    }
}

/// What the server runs with.
pub struct Settings {
    pub icloud: IcloudConfig,
    pub auth_token: String,
    pub bind: String,
}

/// What a [`Settings`] holds.
pub struct SettingsView {
    pub base_url: Seq<char>,
    pub email: Seq<char>,
    pub password: Seq<char>,
    pub auth_token: Seq<char>,
    pub bind: Seq<char>,
}

impl View for Settings {
    type V = SettingsView;

    open spec fn view(&self) -> SettingsView {
        SettingsView {
            base_url: self.icloud.base_url@,
            email: self.icloud.email@,
            password: self.icloud.password@,
            auth_token: self.auth_token@,
            bind: self.bind@,
        }
    }
}

/// A setting, or its default.
pub open spec fn or_default(s: Option<Seq<char>>, default: Seq<char>) -> Seq<char> {
    match s {
        Some(t) => t,
        None => default,
    }
}

/// The settings that an environment gives: account, password and token have to
/// be there, the rest has defaults.
pub open spec fn configured(e: EnvironmentView) -> Result<SettingsView, ErrorView> {
    match (e.email, e.password, e.auth_token) {
        (None, _, _) => Err(ErrorView::NoEmail),
        (_, None, _) => Err(ErrorView::NoPassword),
        (_, _, None) => Err(ErrorView::NoAuthToken),
        (Some(email), Some(password), Some(auth_token)) => Ok(
            SettingsView {
                base_url: or_default(e.base_url, ICLOUD_CALDAV_URL@),
                email,
                password,
                auth_token,
                bind: or_default(e.bind, DEFAULT_BIND@),
            },
        ),
    }
}

/// Reads the settings out of an environment.
pub fn settings(e: Environment) -> (r: Result<Settings, Error>)
    ensures
        match r {
            Ok(s) => configured(e@) == Ok::<SettingsView, ErrorView>(s@),
            Err(x) => configured(e@) == Err::<SettingsView, ErrorView>(x@),
        },
{
    let email = match e.email {
        Some(s) => s,
        None => {
            return Err(Error::NoEmail);
        },
    };
    let password = match e.password {
        Some(s) => s,
        None => {
            return Err(Error::NoPassword);
        },
    };
    let auth_token = match e.auth_token {
        Some(s) => s,
        None => {
            return Err(Error::NoAuthToken);
        },
    };
    let base_url = match e.base_url {
        Some(s) => s,
        None => ICLOUD_CALDAV_URL.to_owned(),
    };
    let bind = match e.bind {
        Some(s) => s,
        None => DEFAULT_BIND.to_owned(),
    };
    Ok(Settings { icloud: IcloudConfig { base_url, email, password }, auth_token, bind })
}

/// The server does not start without a token for clients to present.
pub proof fn no_token_no_server(e: EnvironmentView)
    requires
        e.auth_token is None,
    ensures
        configured(e) is Err,
{
}

/// The server starts with what the environment says: account, password and
/// token as they are set, the address of the calendar server and the one to
/// listen on where they are set, else iCloud's and port 8000 of every interface.
pub proof fn settings_are_what_was_set(e: EnvironmentView)
    ensures
        configured(e) is Ok <==> e.email is Some && e.password is Some && e.auth_token is Some,
        configured(e) matches Ok(s) ==> {
            &&& e.email == Some(s.email)
            &&& e.password == Some(s.password)
            &&& e.auth_token == Some(s.auth_token)
            &&& e.base_url is Some ==> e.base_url == Some(s.base_url)
            &&& e.base_url is None ==> s.base_url == "https://caldav.icloud.com"@
            &&& e.bind is Some ==> e.bind == Some(s.bind)
            &&& e.bind is None ==> s.bind == "0.0.0.0:8000"@
        },
        configured(e) matches Err(x) ==> {
            &&& x is NoEmail <==> e.email is None
            &&& x is NoPassword <==> e.email is Some && e.password is None
            &&& x is NoAuthToken <==> e.email is Some && e.password is Some && e.auth_token is None
        },
{
}

} // verus!
