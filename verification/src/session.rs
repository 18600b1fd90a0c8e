//! App-user sessions: what is persisted, and what a client holds in memory.
use vstd::prelude::*;
use crate::json::{copy_json, json_option, Json, JsonView};
use crate::text::{copy_option, option_view};

verus! {

/// Durable app-user session suitable for secure storage.
#[derive(Debug, PartialEq)]
pub struct AppSession {
    /// Bearer access token.
    pub access_token: String,
    /// Single-use refresh token used to renew the session.
    pub refresh_token: Option<String>,
    /// Access-token expiry as Unix milliseconds, when known.
    pub access_token_expires_at: Option<i64>,
    /// Authenticated user snapshot, when supplied by the login flow.
    pub user: Option<Json>,
}

/// The mathematical form of an [`AppSession`].
pub struct AppSessionView {
    /// Bearer access token.
    pub access_token: Seq<char>,
    /// Single-use refresh token used to renew the session.
    pub refresh_token: Option<Seq<char>>,
    /// Access-token expiry as Unix milliseconds, when known.
    pub access_token_expires_at: Option<i64>,
    /// Authenticated user snapshot, when supplied by the login flow.
    pub user: Option<JsonView>,
}

impl View for AppSession {
    type V = AppSessionView;

    open spec fn view(&self) -> AppSessionView {
        AppSessionView {
            access_token: self.access_token@,
            refresh_token: option_view(self.refresh_token),
            access_token_expires_at: self.access_token_expires_at,
            user: json_option(self.user),
        }
    }
}

impl Clone for AppSession {
    fn clone(&self) -> (r: AppSession)
        ensures
            r@ == self@,
    {
        AppSession {
            access_token: self.access_token.clone(),
            refresh_token: copy_option(&self.refresh_token),
            access_token_expires_at: self.access_token_expires_at,
            user: copy_json(&self.user),
        }
    }
}

/// The view of an optional session.
pub open spec fn session_option(s: Option<AppSession>) -> Option<AppSessionView> {
    match s {
        Some(v) => Some(v@),
        None => None,
    }
}

/// The credentials that a client holds in memory.
///
/// The generation changes with every change of the credentials, so that a
/// request can tell whether those it was sent with are still the current ones.
#[derive(Debug)]
pub struct Session {
    /// Bearer access token.
    pub access_token: Option<String>,
    /// Refresh token.
    pub refresh_token: Option<String>,
    /// Path of the endpoint that renews the session.
    pub refresh_path: Option<String>,
    /// Access-token expiry as Unix milliseconds, when known.
    pub access_token_expires_at: Option<i64>,
    /// Authenticated user snapshot.
    pub user: Option<Json>,
    /// Counts the changes, modulo 2^64.
    pub generation: u64,
}

/// The mathematical form of a [`Session`].
pub struct SessionView {
    /// Bearer access token.
    pub access_token: Option<Seq<char>>,
    /// Refresh token.
    pub refresh_token: Option<Seq<char>>,
    /// Path of the endpoint that renews the session.
    pub refresh_path: Option<Seq<char>>,
    /// Access-token expiry as Unix milliseconds, when known.
    pub access_token_expires_at: Option<i64>,
    /// Authenticated user snapshot.
    pub user: Option<JsonView>,
    /// Counts the changes, modulo 2^64.
    pub generation: u64,
}

impl View for Session {
    type V = SessionView;

    open spec fn view(&self) -> SessionView {
        SessionView {
            access_token: option_view(self.access_token),
            refresh_token: option_view(self.refresh_token),
            refresh_path: option_view(self.refresh_path),
            access_token_expires_at: self.access_token_expires_at,
            user: json_option(self.user),
            generation: self.generation,
        }
    }
}

/// The generation after one more change.
pub open spec fn next_generation(generation: u64) -> u64 {
    if generation == u64::MAX {
        0
    } else {
        (generation + 1) as u64
    }
}

/// The path of the endpoint that renews an app-user session.
pub open spec fn app_refresh_path() -> Seq<char> {
    "/api/v1/auth/refresh"@
}

impl SessionView {
    /// No credentials, at a given generation.
    pub open spec fn blank(generation: u64) -> SessionView {
        SessionView {
            access_token: None,
            refresh_token: None,
            refresh_path: None,
            access_token_expires_at: None,
            user: None,
            generation,
        }
    }

    /// Another token pair. Expiry and user stay.
    pub open spec fn with_tokens(
        self,
        access_token: Seq<char>,
        refresh_token: Option<Seq<char>>,
        refresh_path: Seq<char>,
    ) -> SessionView {
        SessionView {
            access_token: Some(access_token),
            refresh_token,
            refresh_path: Some(refresh_path),
            generation: next_generation(self.generation),
            ..self
        }
    }

    /// The credentials of an app-user session.
    pub open spec fn with_app_session(self, value: AppSessionView) -> SessionView {
        SessionView {
            access_token: Some(value.access_token),
            refresh_token: value.refresh_token,
            refresh_path: Some(app_refresh_path()),
            access_token_expires_at: value.access_token_expires_at,
            user: value.user,
            generation: next_generation(self.generation),
        }
    }

    /// A renewed access token, and a rotated refresh token where the server
    /// sent one.
    pub open spec fn with_refresh(
        self,
        access_token: Seq<char>,
        refresh_token: Option<Seq<char>>,
    ) -> SessionView {
        SessionView {
            access_token: Some(access_token),
            refresh_token: if refresh_token is Some {
                refresh_token
            } else {
                self.refresh_token
            },
            generation: next_generation(self.generation),
            ..self
        }
    }

    /// The app-user session that these credentials make up.
    pub open spec fn app_session(self) -> Option<AppSessionView> {
        match self.access_token {
            Some(access_token) => Some(
                AppSessionView {
                    access_token,
                    refresh_token: self.refresh_token,
                    access_token_expires_at: self.access_token_expires_at,
                    user: self.user,
                },
            ),
            None => None,
        }
    }
}

impl Session {
    /// No credentials.
    pub fn blank(generation: u64) -> (r: Session)
        ensures
            r@ == SessionView::blank(generation),
    {
        Session {
            access_token: None,
            refresh_token: None,
            refresh_path: None,
            access_token_expires_at: None,
            user: None,
            generation,
        }
    }

    /// Replaces the token pair.
    pub fn install_tokens(
        &mut self,
        access_token: String,
        refresh_token: Option<String>,
        refresh_path: &str,
    )
        ensures
            final(self)@ == old(self)@.with_tokens(
                access_token@,
                option_view(refresh_token),
                refresh_path@,
            ),
    {
        self.access_token = Some(access_token);
        self.refresh_token = refresh_token;
        self.refresh_path = Some(refresh_path.to_owned());
        self.generation = self.generation.wrapping_add(1);
    }

    /// Takes over the credentials of an app-user session.
    pub fn install(&mut self, value: &AppSession)
        ensures
            final(self)@ == old(self)@.with_app_session(value@),
    {
        self.access_token = Some(value.access_token.clone());
        self.refresh_token = copy_option(&value.refresh_token);
        self.refresh_path = Some("/api/v1/auth/refresh".to_owned());
        self.access_token_expires_at = value.access_token_expires_at;
        self.user = copy_json(&value.user);
        self.generation = self.generation.wrapping_add(1);
    }

    /// Takes over the tokens of a refresh response.
    pub fn renew(&mut self, access_token: String, refresh_token: Option<String>)
        ensures
            final(self)@ == old(self)@.with_refresh(access_token@, option_view(refresh_token)),
    {
        self.access_token = Some(access_token);
        if refresh_token.is_some() {
            self.refresh_token = refresh_token;
        }
        self.generation = self.generation.wrapping_add(1);
    }

    /// Drops the credentials.
    pub fn clear(&mut self)
        ensures
            final(self)@ == SessionView::blank(next_generation(old(self)@.generation)),
    {
        let generation: u64 = self.generation.wrapping_add(1);
        *self = Session::blank(generation);
    }

    /// The app-user session that these credentials make up; none without an
    /// access token.
    pub fn app_session(&self) -> (r: Option<AppSession>)
        ensures
            session_option(r) == self@.app_session(),
    {
        match &self.access_token {
            Some(access_token) => Some(
                AppSession {
                    access_token: access_token.clone(),
                    refresh_token: copy_option(&self.refresh_token),
                    access_token_expires_at: self.access_token_expires_at,
                    user: copy_json(&self.user),
                },
            ),
            None => None,
        }
    }
}

/// Every change of the credentials makes the generation another.
pub proof fn law_generation_changes(generation: u64)
    ensures
        next_generation(generation) != generation,
{
}

/// An installed app-user session is read back as it was.
pub proof fn law_installed_session_is_read_back(session: SessionView, value: AppSessionView)
    ensures
        session.with_app_session(value).app_session() == Some(value),
        session.with_app_session(value).access_token == Some(value.access_token),
{
}

/// After a sign-out there is neither a token nor a session.
pub proof fn law_blank_session_is_none(generation: u64)
    ensures
        SessionView::blank(generation).app_session() is None,
        SessionView::blank(generation).access_token is None,
{
}

/// A refresh keeps the user, the expiry and the refresh path, and without a
/// rotated refresh token it keeps the old one.
pub proof fn law_refresh_keeps_the_rest(
    session: SessionView,
    access_token: Seq<char>,
    refresh_token: Option<Seq<char>>,
)
    ensures
        ({
            let after = session.with_refresh(access_token, refresh_token);
            &&& after.user == session.user
            &&& after.access_token_expires_at == session.access_token_expires_at
            &&& after.refresh_path == session.refresh_path
            &&& after.access_token == Some(access_token)
            &&& refresh_token is None ==> after.refresh_token == session.refresh_token
            &&& refresh_token is Some ==> after.refresh_token == refresh_token
            &&& after.generation != session.generation
        }),
{
}

} // verus!
