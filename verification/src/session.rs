//! The user's session with the licence server.
use vstd::prelude::*;

use crate::text::{trim, trimmed};

verus! {

/// Whether the user is logged in.
#[derive(Debug, PartialEq, Eq)]
pub enum LoginState {
    LoggedOut,
    /// A request is on its way.
    LoggingIn,
    LoggedIn { user_id: String, expiry: String },
}

/// What the server says to a login.
#[derive(Debug, PartialEq, Eq)]
pub struct LoginResponse {
    pub success: bool,
    pub message: String,
    pub expiry_date: Option<String>,
}

/// What came of a login request.
#[derive(Debug, PartialEq, Eq)]
pub enum LoginReply {
    /// The server answered with this status, and with this response where the answer held one.
    Answered { status: String, response: Option<LoginResponse> },
    /// The server could not be reached, for this reason.
    Unreachable(String),
}

/// What a login request means for the session.
#[derive(Debug, PartialEq, Eq)]
pub enum LoginEvent {
    LoggedIn { user_id: String, expiry: String },
    Failed(String),
}

/// What is to be done after events came in.
#[derive(Debug, PartialEq, Eq)]
pub struct SessionEffects {
    /// The user for whom the regular check of the session starts.
    pub heartbeat: Option<String>,
    /// What the search for workers is told of the session, where that changes.
    pub is_login: Option<bool>,
}

/// The login screen and what lies behind it.
#[derive(Debug, PartialEq, Eq)]
pub struct Session {
    pub login_id_input: String,
    pub login_error: Option<String>,
    pub login_state: LoginState,
}

/// The error of a login without a user.
pub open spec fn no_user_error() -> Seq<char> {
    "아이디를 입력하세요."@
}

/// The error after the server ended the session.
pub open spec fn expired_error() -> Seq<char> {
    "세션이 만료되었습니다."@
}

pub open spec fn is_logged_in_as(state: LoginState, user_id: Seq<char>, expiry: Seq<char>) -> bool {
    &&& state is LoggedIn
    &&& state->user_id@ == user_id
    &&& state->expiry@ == expiry
}

/// Whether `text` is there and reads `expected`.
pub open spec fn reads(text: Option<String>, expected: Seq<char>) -> bool {
    text is Some && text->0@ == expected
}

/// The address of one of the server's services.
pub fn api_url(service: &str) -> (url: String)
    ensures
        url@ == "https://93.127.129.57:8095/api/"@ + service@,
{
    let mut url: String = String::new();
    url.append("https://93.127.129.57:8095/api/");
    url.append(service);
    assert(url@ =~= "https://93.127.129.57:8095/api/"@ + service@);
    url
}

/// What a login request means for the session. A response that reports success logs the user
/// in, with the date that it gives or none; one that reports failure gives the message to show.
/// An answer without a response and a server out of reach are errors of their own.
pub fn login_outcome(user_id: &str, reply: &LoginReply) -> (event: LoginEvent)
    ensures
        match *reply {
            LoginReply::Answered { status, response } => match response {
                Some(response) => if response.success {
                    &&& event is LoggedIn
                    &&& event->user_id@ == user_id@
                    &&& event->expiry@ == (match response.expiry_date {
                        Some(date) => date@,
                        None => Seq::<char>::empty(),
                    })
                } else {
                    event is Failed && event->Failed_0@ == response.message@
                },
                None => event is Failed && event->Failed_0@ == "서버 응답 파싱 실패 (상태: "@
                    + status@ + ")"@,
            },
            LoginReply::Unreachable(reason) => event is Failed && event->Failed_0@
                == "서버 연결 실패: "@ + reason@,
        },
{
    match reply {
        LoginReply::Answered { status, response } => match response {
            Some(response) => {
                if response.success {
                    let expiry: String = match &response.expiry_date {
                        Some(date) => date.clone(),
                        None => String::new(),
                    };
                    LoginEvent::LoggedIn { user_id: user_id.to_owned(), expiry }
                } else {
                    LoginEvent::Failed(response.message.clone())
                }
            },
            None => {
                let mut message: String = String::new();
                message.append("서버 응답 파싱 실패 (상태: ");
                message.append(status.as_str());
                message.append(")");
                assert(message@ =~= "서버 응답 파싱 실패 (상태: "@ + status@ + ")"@);
                LoginEvent::Failed(message)
            },
        },
        LoginReply::Unreachable(reason) => {
            let mut message: String = String::new();
            message.append("서버 연결 실패: ");
            message.append(reason.as_str());
            assert(message@ =~= "서버 연결 실패: "@ + reason@);
            LoginEvent::Failed(message)
        },
    }
}

/// Tells whether the regular check ends the session: only an answer that denies it does. No
/// answer, or one that cannot be read, does not.
pub fn ends_session(answer: Option<bool>) -> (ends: bool)
    ensures
        ends == (answer == Some(false)),
{
    match answer {
        Some(success) => !success,
        None => false,
    }
}

impl Session {
    /// A session at the start: nobody is logged in and nothing is entered.
    pub fn new() -> (session: Session)
        ensures
            session.login_id_input@ == Seq::<char>::empty(),
            session.login_error is None,
            session.login_state is LoggedOut,
    {
        Session {
            login_id_input: String::new(),
            login_error: None,
            login_state: LoginState::LoggedOut,
        }
    }

    /// Tries to log in the user that was entered, white space at either end aside. The result
    /// is the user to ask the server about. Where nobody was entered there is none, and the
    /// error says so.
    pub fn attempt_login(&mut self) -> (user_id: Option<String>)
        ensures
            final(self).login_id_input == old(self).login_id_input,
            trimmed(old(self).login_id_input@).len() == 0 ==> {
                &&& user_id is None
                &&& final(self).login_state == old(self).login_state
                &&& reads(final(self).login_error, no_user_error())
            },
            trimmed(old(self).login_id_input@).len() > 0 ==> {
                &&& reads(user_id, trimmed(old(self).login_id_input@))
                &&& final(self).login_state is LoggingIn
                &&& final(self).login_error is None
            },
    {
        let user_id: String = trim(self.login_id_input.as_str());
        if user_id.as_str().is_empty() {
            self.login_error = Some("아이디를 입력하세요.".to_owned());
            return None;
        }
        self.login_state = LoginState::LoggingIn;
        self.login_error = None;
        Some(user_id)
    }

    /// Takes in what happened since the last look: a login, then an error, then the end of the
    /// session, each where there was one. An error or the end logs the user out again.
    pub fn take_events(
        &mut self,
        login: Option<(String, String)>,
        error: Option<String>,
        expired: bool,
    ) -> (effects: SessionEffects)
        ensures
            final(self).login_id_input == old(self).login_id_input,
            // the state
            expired || error is Some ==> final(self).login_state is LoggedOut,
            !expired && error is None ==> match login {
                Some((user_id, expiry)) => is_logged_in_as(
                    final(self).login_state,
                    user_id@,
                    expiry@,
                ),
                None => final(self).login_state == old(self).login_state,
            },
            // the error
            expired ==> reads(final(self).login_error, expired_error()),
            !expired && error is Some ==> final(self).login_error == error,
            !expired && error is None ==> final(self).login_error == old(self).login_error,
            // what follows
            login is Some ==> reads(effects.heartbeat, (login->0).0@),
            login is None ==> effects.heartbeat is None,
            effects.is_login == (if expired {
                Some(false)
            } else if login is Some {
                Some(true)
            } else {
                None
            }),
    {
        let mut effects: SessionEffects = SessionEffects { heartbeat: None, is_login: None };
        match login {
            Some((user_id, expiry)) => {
                effects.heartbeat = Some(user_id.clone());
                effects.is_login = Some(true);
                self.login_state = LoginState::LoggedIn { user_id, expiry };
            },
            None => {},
        }
        match error {
            Some(error) => {
                self.login_state = LoginState::LoggedOut;
                self.login_error = Some(error);
            },
            None => {},
        }
        if expired {
            self.login_state = LoginState::LoggedOut;
            effects.is_login = Some(false);
            self.login_error = Some("세션이 만료되었습니다.".to_owned());
        }
        effects
    }

    /// Tells whether the monitors are shown rather than the login screen.
    pub fn is_open(&self) -> (open: bool)
        ensures
            open == (self.login_state is LoggedIn),
    {
        match &self.login_state {
            LoginState::LoggedIn { .. } => true,
            _ => false,
        }
    }

    /// Tells whether a login request is on its way, so that no other is offered.
    pub fn is_waiting(&self) -> (waiting: bool)
        ensures
            waiting == (self.login_state is LoggingIn),
    {
        match &self.login_state {
            LoginState::LoggingIn => true,
            _ => false,
        }
    }

    /// Tells whether the login screen starts an attempt: when a name is entered, or the button is
    /// clicked while no request is on its way.
    pub fn starts_login(&self, entered: bool, clicked: bool) -> (starts: bool)
        ensures
            starts == (entered || (clicked && self.login_state !is LoggingIn)),
    {
        entered || (clicked && !self.is_waiting())
    }

    /// The user to log out when the program ends, where one is logged in.
    pub fn user_to_log_out(&self) -> (user_id: Option<String>)
        ensures
            match self.login_state {
                LoginState::LoggedIn { user_id: user, expiry } => reads(user_id, user@),
                _ => user_id is None,
            },
    {
        match &self.login_state {
            LoginState::LoggedIn { user_id, .. } => Some(user_id.clone()),
            _ => None,
        }
    }
}

/// What the contracts of a session say of texts and states: the two errors that a session makes
/// itself, when a text that may be missing reads something, and when somebody is logged in.
pub proof fn session_words(
    text: Option<String>,
    expected: Seq<char>,
    state: LoginState,
    user_id: Seq<char>,
    expiry: Seq<char>,
)
    ensures
        no_user_error() == "아이디를 입력하세요."@,
        expired_error() == "세션이 만료되었습니다."@,
        reads(text, expected) <==> (match text {
            Some(t) => t@ == expected,
            None => false,
        }),
        is_logged_in_as(state, user_id, expiry) <==> (match state {
            LoginState::LoggedIn { user_id: user, expiry: date } => user@ == user_id && date@ == expiry,
            _ => false,
        }),
{
}

} // verus!
