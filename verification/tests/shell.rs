use rollingpanda::shell::{build_command, exec_shell, login_shell, normalize_client_input, Platform};

#[test]
fn windows_line_endings_become_crlf() {
    let n = |s: &[u8]| normalize_client_input(s, Platform::Windows);
    assert_eq!(n(b""), b"");
    assert_eq!(n(b"dir\r"), b"dir\r\n");
    assert_eq!(n(b"dir\n"), b"dir\r\n");
    assert_eq!(n(b"dir\r\n"), b"dir\r\n");
    assert_eq!(n(b"\n\n"), b"\r\n\r\n");
    assert_eq!(n(b"\r\r"), b"\r\n\r\n");
    assert_eq!(n(b"\n\r"), b"\r\n\r\n");
    assert_eq!(n(b"a\r\r\nb\n"), b"a\r\n\r\nb\r\n");
}

#[test]
fn unix_input_is_untouched() {
    assert_eq!(normalize_client_input(b"a\rb\nc\r\n", Platform::Unix), b"a\rb\nc\r\n");
}

#[test]
fn normalising_twice_is_normalising_once() {
    let once = normalize_client_input(b"\ra\n\r\nb\r", Platform::Windows);
    assert_eq!(normalize_client_input(&once, Platform::Windows), once);
    let text: Vec<u8> = once.iter().copied().filter(|b| *b != b'\r' && *b != b'\n').collect();
    assert_eq!(text, b"ab");
}

#[test]
fn chunks_are_joined_unless_cut_inside_crlf() {
    let n = |s: &[u8]| normalize_client_input(s, Platform::Windows);
    let mut parts = n(b"a\n");
    parts.extend(n(b"\rb"));
    assert_eq!(parts, n(b"a\n\rb"));
    let mut cut = n(b"a\r");
    cut.extend(n(b"\nb"));
    assert_eq!(cut, b"a\r\n\r\nb");
}

#[test]
fn login_shell_of_each_platform() {
    let windows = login_shell(Platform::Windows);
    assert_eq!(windows.program.as_deref(), Some("cmd.exe"));
    assert!(windows.args.is_empty());
    assert_eq!(windows.env, vec![("TERM".to_string(), "xterm-256color".to_string())]);
    let unix = login_shell(Platform::Unix);
    assert_eq!(unix.program, None);
    assert!(unix.args.is_empty());
    assert!(unix.env.is_empty());
}

#[test]
fn exec_shell_of_each_platform() {
    let windows = exec_shell("dir /w", Platform::Windows);
    assert_eq!(windows.program.as_deref(), Some("cmd.exe"));
    assert_eq!(windows.args, vec!["/C".to_string(), "dir /w".to_string()]);
    assert_eq!(windows.env, vec![("TERM".to_string(), "xterm-256color".to_string())]);
    let unix = exec_shell("ls -l", Platform::Unix);
    assert_eq!(unix.program.as_deref(), Some("sh"));
    assert_eq!(unix.args, vec!["-c".to_string(), "ls -l".to_string()]);
    assert!(unix.env.is_empty());
}

#[test]
fn command_picks_the_shell() {
    assert_eq!(build_command(None, Platform::Unix).program, None);
    let plan = build_command(Some("echo a; echo b"), Platform::Unix);
    assert_eq!(plan.args.last().map(String::as_str), Some("echo a; echo b"));
}
