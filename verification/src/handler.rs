//! SSH authentication and session requests.
use vstd::prelude::*;

use crate::creds::{verify, Credentials};
use crate::window::PtySize;

verus! {

/// A way to log in.
#[derive(Debug, Clone, Copy, PartialEq, Eq, Structural)]
pub enum AuthMethod {
    Password,
    PublicKey,
}

/// The answer to a login.
#[derive(Debug)]
pub enum Auth {
    Accept,
    Reject {
        /// The methods that the client may go on with, if they change.
        proceed_with_methods: Option<Vec<AuthMethod>>,
        /// The login was one of several that are all needed.
        partial_success: bool,
    },
}

/// The answer to a login that is turned down.
pub open spec fn rejected() -> Auth {
    Auth::Reject { proceed_with_methods: None, partial_success: false }
}

fn reject() -> (auth: Auth)
    ensures
        auth == rejected(),
{
    Auth::Reject { proceed_with_methods: None, partial_success: false }
}

/// `FromUtf8Error` of std; carried through, never looked into.
#[verifier::external_type_specification]
#[verifier::external_body]
pub struct ExFromUtf8Error(std::string::FromUtf8Error);

/// `String::from_utf8` of std: the text that the bytes encode in UTF-8, if
/// they encode one.
pub assume_specification[ String::from_utf8 ](vec: Vec<u8>) -> (text: Result<
    String,
    std::string::FromUtf8Error,
>)
    ensures
        text is Ok <==> vstd::utf8::valid_utf8(vec@),
        text matches Ok(text) ==> text@ == vstd::utf8::decode_utf8(vec@),
;

/// Why a request of the client is refused.
#[derive(Debug)]
pub enum RequestError {
    /// A shell was requested, but no channel is open for it.
    ShellBeforeOpen,
    /// A command was requested, but no channel is open for it.
    ExecBeforeOpen,
    /// The requested command is not UTF-8.
    CommandNotUtf8(std::string::FromUtf8Error),
}

impl RequestError {
    /// The complaint, for the log.
    pub fn message(&self) -> (text: &'static str)
        ensures
            text@ == match *self {
                RequestError::ShellBeforeOpen => "shell requested before session channel was opened"@,
                RequestError::ExecBeforeOpen => "exec requested before session channel was opened"@,
                RequestError::CommandNotUtf8(_) => "exec command must be UTF-8"@,
            },
    {
        match self {
            RequestError::ShellBeforeOpen => "shell requested before session channel was opened",
            RequestError::ExecBeforeOpen => "exec requested before session channel was opened",
            RequestError::CommandNotUtf8(_) => "exec command must be UTF-8",
        }
    }
}

/// What to start for the client, and on which channel.
#[derive(Debug)]
pub struct Launch<C> {
    pub channel: C,
    pub cols: u16,
    pub rows: u16,
    /// The command to run; `None` is the interactive shell.
    pub command: Option<String>,
}

/// What the server knows of a client's session. `C` stands for its channel and
/// `R` for the way to tell its shell of a new window size.
#[derive(Debug)]
pub struct ChannelState<C, R> {
    pub channel: Option<C>,
    pub cols: u16,
    pub rows: u16,
    pub term: String,
    pub resize_tx: Option<R>,
}

/// The contents of a [`ChannelState`].
#[verifier::reject_recursive_types(C)]
#[verifier::reject_recursive_types(R)]
pub struct SessionModel<C, R> {
    pub channel: Option<C>,
    pub cols: u16,
    pub rows: u16,
    pub term: Seq<char>,
    pub resize_tx: Option<R>,
}

impl<C, R> View for ChannelState<C, R> {
    type V = SessionModel<C, R>;

    open spec fn view(&self) -> SessionModel<C, R> {
        SessionModel {
            channel: self.channel,
            cols: self.cols,
            rows: self.rows,
            term: self.term@,
            resize_tx: self.resize_tx,
        }
    }
}

impl<C, R> SessionModel<C, R> {
    /// A session before the client's first request.
    pub open spec fn fresh() -> Self {
        SessionModel {
            channel: None,
            cols: 80,
            rows: 24,
            term: "xterm-256color"@,
            resize_tx: None,
        }
    }

    /// The window has at least one cell.
    pub open spec fn wf(self) -> bool {
        self.cols >= 1 && self.rows >= 1
    }

    /// The client opened a channel.
    pub open spec fn opened(self, channel: C) -> Self {
        SessionModel { channel: Some(channel), ..self }
    }

    /// The client asked for a window of this size.
    pub open spec fn sized(self, col_width: u32, row_height: u32) -> Self {
        SessionModel {
            cols: crate::window::clamped(col_width),
            rows: crate::window::clamped(row_height),
            ..self
        }
    }

    /// The client asked for a terminal.
    pub open spec fn with_pty(self, term: Seq<char>, col_width: u32, row_height: u32) -> Self {
        SessionModel { term, ..self.sized(col_width, row_height) }
    }

    /// A shell would be granted.
    pub open spec fn grants_shell(self) -> bool {
        self.channel is Some
    }

    /// This command would be granted.
    pub open spec fn grants_exec(self, command: Seq<u8>) -> bool {
        vstd::utf8::valid_utf8(command) && self.channel is Some
    }

    /// The client asked for a shell, to be told of new sizes through `resize_tx`.
    pub open spec fn after_shell(self, resize_tx: R) -> Self {
        if self.grants_shell() {
            SessionModel { channel: None, resize_tx: Some(resize_tx), ..self }
        } else {
            self
        }
    }

    /// The client asked for a command.
    pub open spec fn after_exec(self, command: Seq<u8>) -> Self {
        if self.grants_exec(command) {
            SessionModel { channel: None, ..self }
        } else {
            self
        }
    }

    /// The shell ended.
    pub open spec fn after_shell_end(self) -> Self {
        SessionModel { resize_tx: None, ..self }
    }
}

/// A client's session.
pub struct SessionHandler<C, R> {
    pub credentials: Credentials,
    pub state: ChannelState<C, R>,
}

impl<C, R> SessionHandler<C, R> {
    /// A session that has seen no request yet.
    pub fn new(credentials: Credentials) -> (handler: Self)
        ensures
            handler.credentials == credentials,
            handler.state@ == SessionModel::<C, R>::fresh(),
    {
        SessionHandler {
            credentials,
            state: ChannelState {
                channel: None,
                cols: 80,
                rows: 24,
                term: "xterm-256color".to_owned(),
                resize_tx: None,
            },
        }
    }

    /// Password login: accepted when both match the baked-in credentials.
    pub fn auth_password(&self, user: &str, password: &str) -> (auth: Auth)
        ensures
            auth == if self.credentials.admits(user@, password@) {
                Auth::Accept
            } else {
                rejected()
            },
    {
        if verify(&self.credentials, user, password) {
            Auth::Accept
        } else {
            reject()
        }
    }

    /// Public-key login: never accepted, whoever asks.
    pub fn auth_publickey(&self, _user: &str) -> (auth: Auth)
        ensures
            auth == rejected(),
    {
        reject()
    }

    /// The client opens a channel; it takes the place of an unused one.
    pub fn channel_open_session(&mut self, channel: C) -> (accepted: bool)
        ensures
            accepted,
            final(self).state@ == old(self).state@.opened(channel),
            final(self).credentials == old(self).credentials,
    {
        self.state.channel = Some(channel);
        true
    }

    /// The client asks for a terminal.
    pub fn pty_request(&mut self, term: &str, col_width: u32, row_height: u32)
        ensures
            final(self).state@ == old(self).state@.with_pty(term@, col_width, row_height),
            final(self).credentials == old(self).credentials,
    {
        self.state.term = term.to_owned();
        self.state.cols = crate::window::clamp_cells(col_width);
        self.state.rows = crate::window::clamp_cells(row_height);
    }

    /// The client's window changed; returns the size to tell the shell, if one runs.
    pub fn window_change_request(&mut self, col_width: u32, row_height: u32) -> (size: Option<PtySize>)
        ensures
            final(self).state@ == old(self).state@.sized(col_width, row_height),
            final(self).credentials == old(self).credentials,
            size == match old(self).state.resize_tx {
                Some(_) => Some(
                    PtySize {
                        rows: crate::window::clamped(row_height),
                        cols: crate::window::clamped(col_width),
                        pixel_width: 0,
                        pixel_height: 0,
                    },
                ),
                None => None,
            },
    {
        self.state.cols = crate::window::clamp_cells(col_width);
        self.state.rows = crate::window::clamp_cells(row_height);
        if self.state.resize_tx.is_some() {
            Some(crate::window::pty_size(self.state.cols, self.state.rows))
        } else {
            None
        }
    }

    /// The client asks for a shell, which will be told of new sizes through `resize_tx`.
    pub fn shell_request(&mut self, resize_tx: R) -> (launch: Result<Launch<C>, RequestError>)
        ensures
            final(self).state@ == old(self).state@.after_shell(resize_tx),
            final(self).credentials == old(self).credentials,
            match old(self).state.channel {
                Some(channel) => launch == Ok::<Launch<C>, RequestError>(
                    Launch {
                        channel,
                        cols: old(self).state.cols,
                        rows: old(self).state.rows,
                        command: None,
                    },
                ),
                None => launch == Err::<Launch<C>, RequestError>(RequestError::ShellBeforeOpen),
            },
    {
        match self.state.channel.take() {
            Some(channel) => {
                self.state.resize_tx = Some(resize_tx);
                Ok(
                    Launch {
                        channel,
                        cols: self.state.cols,
                        rows: self.state.rows,
                        command: None,
                    },
                )
            },
            None => Err(RequestError::ShellBeforeOpen),
        }
    }

    /// The client asks for a command. A command that is not UTF-8 is refused
    /// before the channel is looked at, so the channel can still be used.
    pub fn exec_request(&mut self, command: &[u8]) -> (launch: Result<Launch<C>, RequestError>)
        ensures
            final(self).state@ == old(self).state@.after_exec(command@),
            final(self).credentials == old(self).credentials,
            !vstd::utf8::valid_utf8(command@) ==> (launch matches Err(error) && error is CommandNotUtf8),
            vstd::utf8::valid_utf8(command@) ==> match old(self).state.channel {
                Some(channel) => launch matches Ok(start) && {
                    &&& start.channel == channel
                    &&& start.cols == old(self).state.cols
                    &&& start.rows == old(self).state.rows
                    &&& start.command matches Some(text) && text@ == vstd::utf8::decode_utf8(command@)
                },
                None => launch == Err::<Launch<C>, RequestError>(RequestError::ExecBeforeOpen),
            },
    {
        let command = match String::from_utf8(vstd::slice::slice_to_vec(command)) {
            Ok(command) => command,
            Err(error) => {
                return Err(RequestError::CommandNotUtf8(error));
            },
        };
        match self.state.channel.take() {
            Some(channel) => Ok(
                Launch {
                    channel,
                    cols: self.state.cols,
                    rows: self.state.rows,
                    command: Some(command),
                },
            ),
            None => Err(RequestError::ExecBeforeOpen),
        }
    }

    /// The shell ended: nobody is left to tell of new sizes.
    pub fn shell_ended(&mut self)
        ensures
            final(self).state@ == old(self).state@.after_shell_end(),
            final(self).credentials == old(self).credentials,
    {
        self.state.resize_tx = None;
    }
}

/// The server: it makes a session for every client.
pub struct RollingPandaServer {
    pub credentials: Credentials,
}

impl Clone for RollingPandaServer {
    fn clone(&self) -> (copy: Self)
        ensures
            copy.credentials.username@ == self.credentials.username@,
            copy.credentials.password@ == self.credentials.password@,
    {
        RollingPandaServer { credentials: self.credentials.clone() }
    }
}

impl RollingPandaServer {
    /// A fresh session, which knows the server's credentials.
    pub fn new_client<C, R>(&self) -> (handler: SessionHandler<C, R>)
        ensures
            handler.credentials.username@ == self.credentials.username@,
            handler.credentials.password@ == self.credentials.password@,
            handler.state@ == SessionModel::<C, R>::fresh(),
    {
        SessionHandler::new(self.credentials.clone())
    }

    /// The advice to log when a session breaks down.
    pub fn handle_session_error(&self, error: &anyhow::Error) -> (hint: &'static str)
        ensures
            exists|message: String|
                #[trigger] call_ensures(crate::hint::error_message, (error,), message) && hint@
                    == crate::hint::advice(message@),
    {
        crate::hint::session_error_hint(error)
    }
}

/// Something that a client does, or that happens to its shell.
#[verifier::reject_recursive_types(C)]
#[verifier::reject_recursive_types(R)]
pub enum SessionEvent<C, R> {
    Open(C),
    Pty(Seq<char>, u32, u32),
    Window(u32, u32),
    Shell(R),
    Exec(Seq<u8>),
    ShellEnd,
}

/// The session behind an event.
pub open spec fn session_step<C, R>(s: SessionModel<C, R>, event: SessionEvent<C, R>) -> SessionModel<
    C,
    R,
> {
    match event {
        SessionEvent::Open(channel) => s.opened(channel),
        SessionEvent::Pty(term, cols, rows) => s.with_pty(term, cols, rows),
        SessionEvent::Window(cols, rows) => s.sized(cols, rows),
        SessionEvent::Shell(resize_tx) => s.after_shell(resize_tx),
        SessionEvent::Exec(command) => s.after_exec(command),
        SessionEvent::ShellEnd => s.after_shell_end(),
    }
}

/// The session behind a series of events.
pub open spec fn session_run<C, R>(
    s: SessionModel<C, R>,
    events: Seq<SessionEvent<C, R>>,
) -> SessionModel<C, R>
    decreases events.len(),
{
    if events.len() == 0 {
        s
    } else {
        session_run(session_step(s, events[0]), events.skip(1))
    }
}

/// The event starts a program.
pub open spec fn starts<C, R>(s: SessionModel<C, R>, event: SessionEvent<C, R>) -> bool {
    match event {
        SessionEvent::Shell(_) => s.grants_shell(),
        SessionEvent::Exec(command) => s.grants_exec(command),
        _ => false,
    }
}

/// How many programs a series of events starts.
pub open spec fn starts_in<C, R>(s: SessionModel<C, R>, events: Seq<SessionEvent<C, R>>) -> nat
    decreases events.len(),
{
    if events.len() == 0 {
        0
    } else {
        (if starts(s, events[0]) {
            1nat
        } else {
            0
        }) + starts_in(session_step(s, events[0]), events.skip(1))
    }
}

/// How many channels a series of events opens.
pub open spec fn opens_in<C, R>(events: Seq<SessionEvent<C, R>>) -> nat
    decreases events.len(),
{
    if events.len() == 0 {
        0
    } else {
        (if events[0] is Open {
            1nat
        } else {
            0
        }) + opens_in(events.skip(1))
    }
}

/// A channel serves one program at most: a client never starts more programs
/// than it opens channels.
pub proof fn law_one_program_per_channel<C, R>(events: Seq<SessionEvent<C, R>>)
    ensures
        starts_in(SessionModel::<C, R>::fresh(), events) <= opens_in(events),
{
    lemma_starts_bounded(SessionModel::<C, R>::fresh(), events);
}

proof fn lemma_starts_bounded<C, R>(s: SessionModel<C, R>, events: Seq<SessionEvent<C, R>>)
    ensures
        starts_in(s, events) <= opens_in(events) + if s.channel is Some {
            1nat
        } else {
            0
        },
    decreases events.len(),
{
    if events.len() > 0 {
        lemma_starts_bounded(session_step(s, events[0]), events.skip(1));
    }
}

/// A request for a shell or a command that is refused changes nothing: a
/// channel that was open stays open for the next request.
pub proof fn law_refused_request_changes_nothing<C, R>(
    s: SessionModel<C, R>,
    event: SessionEvent<C, R>,
)
    requires
        event is Shell || event is Exec,
        !starts(s, event),
    ensures
        session_step(s, event) == s,
{
}

/// Whatever the client asks for, the window that a session knows has at least
/// one column and one row.
pub proof fn law_window_is_never_empty<C, R>(events: Seq<SessionEvent<C, R>>)
    ensures
        session_run(SessionModel::<C, R>::fresh(), events).wf(),
{
    lemma_run_wf(SessionModel::<C, R>::fresh(), events);
}

proof fn lemma_run_wf<C, R>(s: SessionModel<C, R>, events: Seq<SessionEvent<C, R>>)
    requires
        s.wf(),
    ensures
        session_run(s, events).wf(),
    decreases events.len(),
{
    if events.len() > 0 {
        lemma_run_wf(session_step(s, events[0]), events.skip(1));
    }
}

/// A password login is accepted if and only if both texts are the very ones of
/// the credentials. Every other is turned down, without a word on how to go on.
pub proof fn law_password_login<C, R>(
    handler: &SessionHandler<C, R>,
    user: &str,
    password: &str,
    auth: Auth,
)
    requires
        call_ensures(SessionHandler::<C, R>::auth_password, (handler, user, password), auth),
    ensures
        auth is Accept <==> user@ == handler.credentials.username@ && password@
            == handler.credentials.password@,
        !(auth is Accept) ==> auth->proceed_with_methods is None && !auth->partial_success,
{
}

/// A public key is never accepted, not even from the user that the server knows.
pub proof fn law_public_key_login<C, R>(
    handler: &SessionHandler<C, R>,
    user: &str,
    auth: Auth,
)
    requires
        call_ensures(SessionHandler::<C, R>::auth_publickey, (handler, user), auth),
    ensures
        !(auth is Accept),
        auth->proceed_with_methods is None,
        !auth->partial_success,
{
}

/// A client's session begins with the server's credentials, no channel, no shell,
/// and a window of 80 by 24 in a terminal called `xterm-256color`.
pub proof fn law_new_client<C, R>(server: &RollingPandaServer, handler: SessionHandler<C, R>)
    requires
        call_ensures(RollingPandaServer::new_client::<C, R>, (server,), handler),
    ensures
        handler.credentials.username@ == server.credentials.username@,
        handler.credentials.password@ == server.credentials.password@,
        handler.state.channel is None,
        handler.state.resize_tx is None,
        handler.state.cols == 80,
        handler.state.rows == 24,
        handler.state.term@ == "xterm-256color"@,
{
    assert(handler.state@.term == handler.state.term@);
}

/// A session begins in the same way for whatever credentials it is given.
pub proof fn law_new_session<C, R>(credentials: Credentials, handler: SessionHandler<C, R>)
    requires
        call_ensures(SessionHandler::<C, R>::new, (credentials,), handler),
    ensures
        handler.credentials == credentials,
        handler.state.channel is None,
        handler.state.resize_tx is None,
        handler.state.cols == 80,
        handler.state.rows == 24,
        handler.state.term@ == "xterm-256color"@,
{
    assert(handler.state@.term == handler.state.term@);
}

/// A channel is always accepted, takes the place of one that was not used, and
/// changes nothing else.
pub proof fn law_open_channel<C, R>(
    handler: &mut SessionHandler<C, R>,
    channel: C,
    accepted: bool,
)
    requires
        call_ensures(SessionHandler::<C, R>::channel_open_session, (handler, channel), accepted),
    ensures
        accepted,
        final(handler).state.channel == Some(channel),
        final(handler).state.cols == old(handler).state.cols,
        final(handler).state.rows == old(handler).state.rows,
        final(handler).state.term@ == old(handler).state.term@,
        final(handler).state.resize_tx == old(handler).state.resize_tx,
        final(handler).credentials == old(handler).credentials,
{
    assert(final(handler).state@.channel == final(handler).state.channel);
    assert(final(handler).state@.term == final(handler).state.term@);
}

/// A request for a terminal sets its name and its size, brought into
/// `1..=65535` in each direction, and changes nothing else.
pub proof fn law_terminal_request<C, R>(
    handler: &mut SessionHandler<C, R>,
    term: &str,
    width: u32,
    height: u32,
)
    requires
        call_ensures(SessionHandler::<C, R>::pty_request, (handler, term, width, height), ()),
    ensures
        final(handler).state.term@ == term@,
        1 <= width <= 65535 ==> final(handler).state.cols == width,
        1 <= height <= 65535 ==> final(handler).state.rows == height,
        width == 0 ==> final(handler).state.cols == 1,
        height == 0 ==> final(handler).state.rows == 1,
        width > 65535 ==> final(handler).state.cols == 65535,
        height > 65535 ==> final(handler).state.rows == 65535,
        final(handler).state.channel == old(handler).state.channel,
        final(handler).state.resize_tx == old(handler).state.resize_tx,
        final(handler).credentials == old(handler).credentials,
{
    assert(final(handler).state@.term == final(handler).state.term@);
    assert(final(handler).state@.cols == final(handler).state.cols);
}

/// A window change sets the size in the same way and changes nothing else. A shell
/// that listens is told the new size, every time; without one nobody is.
pub proof fn law_window_change<C, R>(
    handler: &mut SessionHandler<C, R>,
    width: u32,
    height: u32,
    told: Option<PtySize>,
)
    requires
        call_ensures(
            SessionHandler::<C, R>::window_change_request,
            (handler, width, height),
            told,
        ),
    ensures
        1 <= width <= 65535 ==> final(handler).state.cols == width,
        1 <= height <= 65535 ==> final(handler).state.rows == height,
        width == 0 ==> final(handler).state.cols == 1,
        height == 0 ==> final(handler).state.rows == 1,
        width > 65535 ==> final(handler).state.cols == 65535,
        height > 65535 ==> final(handler).state.rows == 65535,
        told is Some <==> old(handler).state.resize_tx is Some,
        told matches Some(size) ==> {
            &&& size.cols == final(handler).state.cols
            &&& size.rows == final(handler).state.rows
            &&& size.pixel_width == 0
            &&& size.pixel_height == 0
        },
        final(handler).state.channel == old(handler).state.channel,
        final(handler).state.term@ == old(handler).state.term@,
        final(handler).state.resize_tx == old(handler).state.resize_tx,
        final(handler).credentials == old(handler).credentials,
{
    assert(final(handler).state@.term == final(handler).state.term@);
    assert(final(handler).state@.cols == final(handler).state.cols);
}

/// A shell is started on the open channel, in a window of the size that is known,
/// and takes the channel away; from then on it is told of new sizes. Without an
/// open channel the request is refused and changes nothing.
pub proof fn law_shell_request<C, R>(
    handler: &mut SessionHandler<C, R>,
    resize_tx: R,
    launch: Result<Launch<C>, RequestError>,
)
    requires
        call_ensures(SessionHandler::<C, R>::shell_request, (handler, resize_tx), launch),
    ensures
        launch is Ok <==> old(handler).state.channel is Some,
        launch matches Ok(start) ==> {
            &&& old(handler).state.channel == Some(start.channel)
            &&& start.cols == old(handler).state.cols
            &&& start.rows == old(handler).state.rows
            &&& start.command is None
            &&& final(handler).state.channel is None
            &&& final(handler).state.resize_tx == Some(resize_tx)
        },
        launch matches Err(error) ==> {
            &&& error is ShellBeforeOpen
            &&& final(handler).state.channel is None
            &&& final(handler).state.resize_tx == old(handler).state.resize_tx
        },
        final(handler).state.cols == old(handler).state.cols,
        final(handler).state.rows == old(handler).state.rows,
        final(handler).state.term@ == old(handler).state.term@,
        final(handler).credentials == old(handler).credentials,
{
    assert(final(handler).state@.channel == final(handler).state.channel);
    assert(final(handler).state@.term == final(handler).state.term@);
}

/// A command that is UTF-8 is started on the open channel, as the very text that
/// its bytes encode, and takes the channel away. A command that is not UTF-8 is
/// refused for that, one without an open channel for the other, and either leaves
/// the channel as it is. A command is not told of new sizes.
pub proof fn law_exec_request<C, R>(
    handler: &mut SessionHandler<C, R>,
    command: &[u8],
    launch: Result<Launch<C>, RequestError>,
)
    requires
        call_ensures(SessionHandler::<C, R>::exec_request, (handler, command), launch),
    ensures
        launch is Ok <==> vstd::utf8::valid_utf8(command@) && old(handler).state.channel is Some,
        launch matches Ok(start) ==> {
            &&& old(handler).state.channel == Some(start.channel)
            &&& start.cols == old(handler).state.cols
            &&& start.rows == old(handler).state.rows
            &&& start.command is Some
            &&& vstd::utf8::encode_utf8(start.command->0@) == command@
            &&& final(handler).state.channel is None
        },
        launch matches Err(error) ==> {
            &&& vstd::utf8::valid_utf8(command@) ==> error is ExecBeforeOpen
            &&& !vstd::utf8::valid_utf8(command@) ==> error is CommandNotUtf8
            &&& final(handler).state.channel == old(handler).state.channel
        },
        final(handler).state.cols == old(handler).state.cols,
        final(handler).state.rows == old(handler).state.rows,
        final(handler).state.term@ == old(handler).state.term@,
        final(handler).state.resize_tx == old(handler).state.resize_tx,
        final(handler).credentials == old(handler).credentials,
{
    assert(final(handler).state@.channel == final(handler).state.channel);
    assert(final(handler).state@.term == final(handler).state.term@);
    if vstd::utf8::valid_utf8(command@) {
        vstd::utf8::decode_utf8_encode_utf8(command@);
    }
}

/// When the shell has ended, nobody is told of new sizes, and nothing else changes.
pub proof fn law_shell_ended<C, R>(handler: &mut SessionHandler<C, R>)
    requires
        call_ensures(SessionHandler::<C, R>::shell_ended, (handler,), ()),
    ensures
        final(handler).state.resize_tx is None,
        final(handler).state.channel == old(handler).state.channel,
        final(handler).state.cols == old(handler).state.cols,
        final(handler).state.rows == old(handler).state.rows,
        final(handler).state.term@ == old(handler).state.term@,
        final(handler).credentials == old(handler).credentials,
{
    assert(final(handler).state@.channel == final(handler).state.channel);
    assert(final(handler).state@.term == final(handler).state.term@);
}

} // verus!
