use rollingpanda::creds::BakedSettings;
use rollingpanda::handler::{Auth, RequestError, RollingPandaServer, SessionHandler};
use rollingpanda::window::{clamp_cells, pty_size, PtySize};

fn session() -> SessionHandler<u8, char> {
    let baked = BakedSettings::new(None, None, None).unwrap();
    let server = RollingPandaServer { credentials: baked.credentials };
    server.clone().new_client()
}

fn is_rejection(auth: Auth) -> bool {
    matches!(auth, Auth::Reject { proceed_with_methods: None, partial_success: false })
}

#[test]
fn password_login() {
    let s = session();
    assert!(matches!(s.auth_password("panda", "rolling"), Auth::Accept));
    assert!(is_rejection(s.auth_password("panda", "wrong")));
    assert!(is_rejection(s.auth_password("root", "rolling")));
}

#[test]
fn public_key_login_is_rejected() {
    assert!(is_rejection(session().auth_publickey("panda")));
    assert!(is_rejection(session().auth_publickey("root")));
}

#[test]
fn session_starts_with_defaults() {
    let s = session();
    assert_eq!((s.state.cols, s.state.rows), (80, 24));
    assert_eq!(s.state.term, "xterm-256color");
    assert_eq!(s.state.channel, None);
    assert_eq!(s.state.resize_tx, None);
}

#[test]
fn shell_needs_an_open_channel() {
    let mut s = session();
    let error = s.shell_request('r').unwrap_err();
    assert!(matches!(error, RequestError::ShellBeforeOpen));
    assert_eq!(error.message(), "shell requested before session channel was opened");
    assert_eq!(s.state.resize_tx, None);
}

#[test]
fn shell_takes_the_channel_once() {
    let mut s = session();
    assert!(s.channel_open_session(5));
    s.pty_request("vt100", 132, 50);
    let launch = s.shell_request('r').unwrap();
    assert_eq!((launch.channel, launch.cols, launch.rows), (5, 132, 50));
    assert_eq!(launch.command, None);
    assert_eq!(s.state.term, "vt100");
    assert!(matches!(s.shell_request('q'), Err(RequestError::ShellBeforeOpen)));
    assert_eq!(s.state.resize_tx, Some('r'));
    assert!(matches!(s.exec_request(b"ls"), Err(RequestError::ExecBeforeOpen)));
}

#[test]
fn exec_takes_the_channel_once() {
    let mut s = session();
    s.channel_open_session(9);
    let launch = s.exec_request("echo ✓".as_bytes()).unwrap();
    assert_eq!((launch.channel, launch.cols, launch.rows), (9, 80, 24));
    assert_eq!(launch.command.as_deref(), Some("echo ✓"));
    assert_eq!(s.state.resize_tx, None);
    let error = s.exec_request(b"ls").unwrap_err();
    assert_eq!(error.message(), "exec requested before session channel was opened");
}

#[test]
fn exec_that_is_not_utf8_leaves_the_channel() {
    let mut s = session();
    s.channel_open_session(9);
    let error = s.exec_request(b"\xff").unwrap_err();
    assert!(matches!(error, RequestError::CommandNotUtf8(_)));
    assert_eq!(error.message(), "exec command must be UTF-8");
    assert_eq!(s.state.channel, Some(9));
    assert!(s.exec_request(b"ls").is_ok());
    assert!(matches!(s.exec_request(b"\xff"), Err(RequestError::CommandNotUtf8(_))));
}

#[test]
fn window_changes_reach_a_running_shell() {
    let mut s = session();
    assert_eq!(s.window_change_request(100, 40), None);
    assert_eq!((s.state.cols, s.state.rows), (100, 40));
    s.channel_open_session(1);
    s.shell_request('r').unwrap();
    let size = PtySize { rows: 30, cols: 90, pixel_width: 0, pixel_height: 0 };
    assert_eq!(s.window_change_request(90, 30), Some(size));
    s.shell_ended();
    assert_eq!(s.window_change_request(91, 31), None);
    assert_eq!((s.state.cols, s.state.rows), (91, 31));
}

#[test]
fn window_is_never_empty() {
    let mut s = session();
    s.pty_request("dumb", 0, 0);
    assert_eq!((s.state.cols, s.state.rows), (1, 1));
    s.window_change_request(65536, u32::MAX);
    assert_eq!((s.state.cols, s.state.rows), (65535, 65535));
    assert_eq!(clamp_cells(65535), 65535);
    assert_eq!(clamp_cells(1), 1);
    assert_eq!(pty_size(2, 3), PtySize { rows: 3, cols: 2, pixel_width: 0, pixel_height: 0 });
}
