//! The login screen's state machine: it waits for the browser login, shows
//! its error, and starts it again on request. The session type is the
//! caller's; this screen only hands it on.

use vstd::prelude::*;

verus! {

/// What the login screen shows.
#[derive(Debug, PartialEq)]
pub enum LoginState {
    /// A browser window is open for the user to sign in.
    WaitingForLogin,
    /// A stored session is being refreshed.
    Refreshing,
    /// The login failed with this message.
    Error(String),
}

/// The mathematical content of a login state.
pub enum LoginStateView {
    WaitingForLogin,
    Refreshing,
    Error(Seq<char>),
}

impl View for LoginState {
    type V = LoginStateView;

    open spec fn view(&self) -> LoginStateView {
        match self {
            LoginState::WaitingForLogin => LoginStateView::WaitingForLogin,
            LoginState::Refreshing => LoginStateView::Refreshing,
            LoginState::Error(e) => LoginStateView::Error(e@),
        }
    }
}

/// The login screen.
pub struct LoginScreen {
    pub state: LoginState,
}

/// What happened on the login screen: the browser login ended, or the user
/// asked to try again.
pub enum Message<S> {
    LoginResult(Result<S, String>),
    Retry,
}

/// Work for the caller of the login screen.
#[derive(Debug, PartialEq)]
pub enum LoginTask {
    /// Nothing to do.
    Nothing,
    /// Run the browser login; its outcome comes back as `LoginResult`.
    BrowserLogin,
}

/// What the login screen asks of the application.
pub enum Action<S> {
    /// Stay on the login screen and do this.
    Task(LoginTask),
    /// The user is signed in with this session.
    LoggedIn(S),
}

impl LoginScreen {
    /// A login screen waiting for the browser login, which it starts.
    pub fn new() -> (r: (LoginScreen, LoginTask))
        ensures
            r.0.state@ == LoginStateView::WaitingForLogin,
            r.1 is BrowserLogin,
    {
        (LoginScreen { state: LoginState::WaitingForLogin }, LoginTask::BrowserLogin)
    }

    /// A login screen for refreshing a stored session.
    pub fn refreshing() -> (r: LoginScreen)
        ensures
            r.state@ == LoginStateView::Refreshing,
    {
        LoginScreen { state: LoginState::Refreshing }
    }

    /// Handle a message: a session signs the user in, an error is shown,
    /// and a retry starts the browser login again.
    pub fn update<S>(&mut self, message: Message<S>) -> (action: Action<S>)
        ensures
            match message {
                Message::LoginResult(Ok(session)) => final(self).state@ == old(self).state@
                    && action == Action::LoggedIn(session),
                Message::LoginResult(Err(e)) => final(self).state@ == LoginStateView::Error(e@)
                    && action == Action::<S>::Task(LoginTask::Nothing),
                Message::Retry => final(self).state@ == LoginStateView::WaitingForLogin
                    && action == Action::<S>::Task(LoginTask::BrowserLogin),
            },
    {
        match message {
            Message::LoginResult(Ok(session)) => Action::LoggedIn(session),
            Message::LoginResult(Err(e)) => {
                self.state = LoginState::Error(e);
                Action::Task(LoginTask::Nothing)
            },
            Message::Retry => {
                let (fresh, task) = LoginScreen::new();
                *self = fresh;
                Action::Task(task)
            },
        }
    }
}

} // verus!
