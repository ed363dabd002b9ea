//! What runs behind a session, and how the client's keystrokes reach it.
use vstd::prelude::*;

verus! {

/// The kind of host that the server runs on.
#[derive(Debug, Clone, Copy, PartialEq, Eq, Structural)]
pub enum Platform {
    Windows,
    Unix,
}

/// Carriage return.
pub const CR: u8 = 0x0d;

/// Line feed.
pub const LF: u8 = 0x0a;

/// `s` begins with a carriage return and a line feed.
pub open spec fn opens_crlf(s: Seq<u8>) -> bool {
    s.len() >= 2 && s[0] == CR && s[1] == LF
}

/// `s` with every line ending (`CR LF`, lone `CR`, lone `LF`) written as `CR LF`.
pub open spec fn with_crlf(s: Seq<u8>) -> Seq<u8>
    decreases s.len(),
{
    if s.len() == 0 {
        Seq::empty()
    } else if opens_crlf(s) {
        seq![CR, LF] + with_crlf(s.skip(2))
    } else if s[0] == CR || s[0] == LF {
        seq![CR, LF] + with_crlf(s.skip(1))
    } else {
        seq![s[0]] + with_crlf(s.skip(1))
    }
}

/// What the terminal gets of a chunk that the client sent.
pub open spec fn normalized(chunk: Seq<u8>, platform: Platform) -> Seq<u8> {
    match platform {
        Platform::Windows => with_crlf(chunk),
        Platform::Unix => chunk,
    }
}

/// Windows ConPTY + OpenSSH: cmd expects CRLF; Linux SSH often sends bare `\r` on Enter.
/// On other hosts the chunk is left as it is.
pub fn normalize_client_input(chunk: &[u8], platform: Platform) -> (out: Vec<u8>)
    ensures
        out@ == normalized(chunk@, platform),
        platform == Platform::Unix ==> out@ == chunk@,
{
    match platform {
        Platform::Windows => to_crlf(chunk),
        Platform::Unix => vstd::slice::slice_to_vec(chunk),
    }
}

fn to_crlf(chunk: &[u8]) -> (out: Vec<u8>)
    ensures
        out@ == with_crlf(chunk@),
{
    let mut out: Vec<u8> = Vec::with_capacity(chunk.len());
    let mut i: usize = 0;
    proof {
        assert(chunk@.take(0) =~= Seq::<u8>::empty());
    }
    while i < chunk.len()
        invariant
            i <= chunk@.len(),
            out@ == written(chunk@, i as int),
        decreases chunk@.len() - i,
    {
        let b = chunk[i];
        if b == LF {
            if i == 0 || chunk[i - 1] != CR {
                out.push(CR);
            }
            out.push(LF);
        } else if b == CR {
            out.push(CR);
            if i + 1 == chunk.len() || chunk[i + 1] != LF {
                out.push(LF);
            }
        } else {
            out.push(b);
        }
        proof {
            lemma_written_step(chunk@, i as int);
        }
        i += 1;
    }
    proof {
        assert(chunk@.take(i as int) =~= chunk@);
    }
    out
}

/// What stands in the output once the first `i` bytes of `s` are written: the
/// line feed of a `CR LF` that is cut at `i` is still to come.
spec fn written(s: Seq<u8>, i: int) -> Seq<u8> {
    if 0 < i < s.len() && s[i - 1] == CR && s[i] == LF {
        with_crlf(s.take(i - 1)).push(CR)
    } else {
        with_crlf(s.take(i))
    }
}

proof fn lemma_written_step(s: Seq<u8>, i: int)
    requires
        0 <= i < s.len(),
    ensures
        s[i] == LF && (i == 0 || s[i - 1] != CR) ==> written(s, i + 1) == written(s, i).push(CR).push(LF),
        s[i] == LF && i > 0 && s[i - 1] == CR ==> written(s, i + 1) == written(s, i).push(LF),
        s[i] == CR && (i + 1 == s.len() || s[i + 1] != LF) ==> written(s, i + 1) == written(s, i).push(CR).push(LF),
        s[i] == CR && i + 1 < s.len() && s[i + 1] == LF ==> written(s, i + 1) == written(s, i).push(CR),
        s[i] != CR && s[i] != LF ==> written(s, i + 1) == written(s, i).push(s[i]),
{
    let one = seq![s[i]];
    if s[i] == LF && i > 0 && s[i - 1] == CR {
        let pair = seq![CR, LF];
        assert(s.take(i + 1) =~= s.take(i - 1) + pair);
        law_normalize_split(s.take(i - 1), pair);
        lemma_pair();
        assert(written(s, i + 1) =~= written(s, i).push(LF));
    } else {
        assert(s.take(i + 1) =~= s.take(i) + one);
        law_normalize_split(s.take(i), one);
        lemma_single(s[i]);
        if s[i] == CR && i + 1 < s.len() && s[i + 1] == LF {
            assert(s.take(i + 1 - 1) =~= s.take(i));
        } else if s[i] == CR || s[i] == LF {
            assert(written(s, i + 1) =~= written(s, i).push(CR).push(LF));
        } else {
            assert(written(s, i + 1) =~= written(s, i).push(s[i]));
        }
    }
}

proof fn lemma_single(b: u8)
    ensures
        with_crlf(seq![b]) == if b == CR || b == LF {
            seq![CR, LF]
        } else {
            seq![b]
        },
{
    let one = seq![b];
    assert(one.skip(1) =~= Seq::<u8>::empty());
    assert(with_crlf(one.skip(1)) =~= Seq::<u8>::empty());
    assert(seq![CR, LF] + Seq::<u8>::empty() =~= seq![CR, LF]);
    assert(seq![b] + Seq::<u8>::empty() =~= seq![b]);
}

proof fn lemma_pair()
    ensures
        with_crlf(seq![CR, LF]) == seq![CR, LF],
{
    let pair = seq![CR, LF];
    assert(pair.skip(2) =~= Seq::<u8>::empty());
    assert(with_crlf(pair.skip(2)) =~= Seq::<u8>::empty());
    assert(pair + Seq::<u8>::empty() =~= pair);
}

/// Normalising two chunks one after the other gives what normalising both at
/// once gives, unless the cut falls inside a `CR LF`.
pub proof fn law_normalize_split(a: Seq<u8>, b: Seq<u8>)
    requires
        !(a.len() > 0 && b.len() > 0 && a.last() == CR && b[0] == LF),
    ensures
        with_crlf(a + b) == with_crlf(a) + with_crlf(b),
    decreases a.len(),
{
    if a.len() == 0 {
        assert(a + b =~= b);
        assert(with_crlf(a) + with_crlf(b) =~= with_crlf(b));
    } else if opens_crlf(a) {
        law_normalize_split(a.skip(2), b);
        assert((a + b).skip(2) =~= a.skip(2) + b);
        assert(with_crlf(a + b) =~= with_crlf(a) + with_crlf(b));
    } else {
        law_normalize_split(a.skip(1), b);
        assert((a + b).skip(1) =~= a.skip(1) + b);
        assert(!opens_crlf(a + b));
        assert(with_crlf(a + b) =~= with_crlf(a) + with_crlf(b));
    }
}

/// On Unix the terminal gets every chunk as the client sent it, whatever line
/// endings it holds.
pub proof fn law_unix_input_is_untouched(chunk: &[u8], out: Vec<u8>)
    requires
        call_ensures(normalize_client_input, (chunk, Platform::Unix), out),
    ensures
        out@ == chunk@,
{
}

/// On every platform, two chunks one after the other give the terminal what one
/// chunk of all their bytes gives, unless the cut falls inside a `CR LF` on
/// Windows.
pub proof fn law_chunks_can_be_joined(
    platform: Platform,
    a: &[u8],
    b: &[u8],
    all: &[u8],
    out_a: Vec<u8>,
    out_b: Vec<u8>,
    out: Vec<u8>,
)
    requires
        call_ensures(normalize_client_input, (a, platform), out_a),
        call_ensures(normalize_client_input, (b, platform), out_b),
        call_ensures(normalize_client_input, (all, platform), out),
        all@ == a@ + b@,
        !(platform == Platform::Windows && a@.len() > 0 && b@.len() > 0 && a@[a@.len() - 1] == 0x0d
            && b@[0] == 0x0a),
    ensures
        out@ == out_a@ + out_b@,
{
    if platform == Platform::Windows {
        law_normalize_split(a@, b@);
    }
}

/// What one more byte in a chunk adds on Windows. A byte of text adds itself. A
/// carriage return adds `CR LF`, and so does a line feed, unless it comes behind
/// a carriage return, whose `CR LF` it completes. No bytes give no bytes.
pub proof fn law_windows_input_byte_by_byte(
    chunk: &[u8],
    longer: &[u8],
    byte: u8,
    out: Vec<u8>,
    longer_out: Vec<u8>,
)
    requires
        call_ensures(normalize_client_input, (chunk, Platform::Windows), out),
        call_ensures(normalize_client_input, (longer, Platform::Windows), longer_out),
        longer@ == chunk@ + seq![byte],
    ensures
        chunk@.len() == 0 ==> out@.len() == 0,
        byte != 0x0d && byte != 0x0a ==> longer_out@ == out@ + seq![byte],
        byte == 0x0d ==> longer_out@ == out@ + seq![0x0d, 0x0a],
        byte == 0x0a && (chunk@.len() == 0 || chunk@[chunk@.len() - 1] != 0x0d) ==> longer_out@
            == out@ + seq![0x0d, 0x0a],
        byte == 0x0a && chunk@.len() > 0 && chunk@[chunk@.len() - 1] == 0x0d ==> longer_out@ == out@,
{
    let s = chunk@;
    if byte == LF && s.len() > 0 && s.last() == CR {
        let front = s.drop_last();
        assert(longer@ =~= front + seq![CR, LF]);
        assert(s =~= front + seq![CR]);
        law_normalize_split(front, seq![CR, LF]);
        law_normalize_split(front, seq![CR]);
        lemma_pair();
        lemma_single(CR);
    } else {
        law_normalize_split(s, seq![byte]);
        lemma_single(byte);
    }
}

/// Every carriage return of `s` is followed by a line feed, and every line
/// feed comes behind a carriage return.
pub open spec fn only_crlf(s: Seq<u8>) -> bool {
    &&& forall|i: int| 0 <= i < s.len() && #[trigger] s[i] == CR ==> i + 1 < s.len() && s[i + 1] == LF
    &&& forall|i: int| 0 <= i < s.len() && #[trigger] s[i] == LF ==> i > 0 && s[i - 1] == CR
}

/// On Windows the shell sees no lone carriage return and no lone line feed.
pub proof fn law_windows_sees_only_crlf(chunk: Seq<u8>)
    ensures
        only_crlf(normalized(chunk, Platform::Windows)),
    decreases chunk.len(),
{
    let s = chunk;
    if s.len() > 0 {
        let (head, rest) = if opens_crlf(s) {
            (seq![CR, LF], s.skip(2))
        } else if s[0] == CR || s[0] == LF {
            (seq![CR, LF], s.skip(1))
        } else {
            (seq![s[0]], s.skip(1))
        };
        law_windows_sees_only_crlf(rest);
        let tail = with_crlf(rest);
        let all = head + tail;
        assert(with_crlf(s) == all);
        let n = head.len() as int;
        assert forall|i: int| 0 <= i < all.len() && #[trigger] all[i] == CR implies i + 1 < all.len() && all[i + 1] == LF by {
            if i >= n {
                assert(tail[i - n] == CR);
                assert(all[i + 1] == tail[i + 1 - n]);
            }
        }
        assert forall|i: int| 0 <= i < all.len() && #[trigger] all[i] == LF implies i > 0 && all[i - 1] == CR by {
            if i >= n {
                assert(tail[i - n] == LF);
                assert(all[i - 1] == tail[i - 1 - n]);
            }
        }
    }
}

/// Input whose line endings are all `CR LF` passes unchanged.
pub proof fn law_crlf_input_unchanged(chunk: Seq<u8>, platform: Platform)
    requires
        only_crlf(chunk),
    ensures
        normalized(chunk, platform) == chunk,
    decreases chunk.len(),
{
    let s = chunk;
    if platform == Platform::Windows && s.len() > 0 {
        let n: int = if s[0] == CR {
            2
        } else {
            1
        };
        let rest = s.skip(n);
        assert(s[0] != LF);
        assert forall|i: int| 0 <= i < rest.len() && #[trigger] rest[i] == CR implies i + 1 < rest.len() && rest[i + 1] == LF by {
            assert(s[i + n] == CR);
            assert(rest[i + 1] == s[i + n + 1]);
        }
        assert forall|i: int| 0 <= i < rest.len() && #[trigger] rest[i] == LF implies i > 0 && rest[i - 1] == CR by {
            assert(s[i + n] == LF);
            assert(s[i + n - 1] == CR);
        }
        law_crlf_input_unchanged(rest, platform);
        assert(with_crlf(s) =~= s);
    }
}

/// Normalising twice is normalising once.
pub proof fn law_normalize_idempotent(chunk: Seq<u8>, platform: Platform)
    ensures
        normalized(normalized(chunk, platform), platform) == normalized(chunk, platform),
{
    if platform == Platform::Windows {
        law_windows_sees_only_crlf(chunk);
        law_crlf_input_unchanged(with_crlf(chunk), platform);
    }
}

/// The bytes of `s` that belong to no line ending.
pub open spec fn text_bytes(s: Seq<u8>) -> Seq<u8> {
    s.filter(|b: u8| b != CR && b != LF)
}

/// Normalising touches line endings only: all other bytes arrive, in order.
pub proof fn law_normalize_keeps_text(chunk: Seq<u8>, platform: Platform)
    ensures
        text_bytes(normalized(chunk, platform)) == text_bytes(chunk),
    decreases chunk.len(),
{
    let keep = |b: u8| b != CR && b != LF;
    let s = chunk;
    if platform == Platform::Windows && s.len() > 0 {
        let (head, taken, n) = if opens_crlf(s) {
            (seq![CR, LF], s.take(2), 2int)
        } else if s[0] == CR || s[0] == LF {
            (seq![CR, LF], s.take(1), 1int)
        } else {
            (seq![s[0]], s.take(1), 1int)
        };
        law_normalize_keeps_text(s.skip(n), platform);
        assert(s =~= taken + s.skip(n));
        Seq::filter_distributes_over_add(head, with_crlf(s.skip(n)), keep);
        Seq::filter_distributes_over_add(taken, s.skip(n), keep);
        reveal_with_fuel(Seq::filter, 3);
        assert(head.filter(keep) =~= taken.filter(keep)) by {
            assert(head.drop_last().drop_last() =~= Seq::<u8>::empty() || head.len() == 1);
            assert(taken.drop_last().drop_last() =~= Seq::<u8>::empty() || taken.len() == 1);
            assert(head.len() == 1 ==> head =~= taken);
        }
        assert(with_crlf(s) == head + with_crlf(s.skip(n)));
    }
}

/// A program to start in the terminal, as plain values.
#[derive(Debug)]
pub struct CommandPlan {
    /// The program; `None` is the default program of the account that the server runs as.
    pub program: Option<String>,
    /// The arguments behind the program's name.
    pub args: Vec<String>,
    /// Environment variables to set on top of the inherited ones.
    pub env: Vec<(String, String)>,
}

/// The contents of a [`CommandPlan`].
pub struct CommandModel {
    pub program: Option<Seq<char>>,
    pub args: Seq<Seq<char>>,
    pub env: Seq<(Seq<char>, Seq<char>)>,
}

impl View for CommandPlan {
    type V = CommandModel;

    open spec fn view(&self) -> CommandModel {
        CommandModel {
            program: match self.program {
                Some(name) => Some(name@),
                None => None,
            },
            args: self.args@.map_values(|arg: String| arg@),
            env: self.env@.map_values(|var: (String, String)| (var.0@, var.1@)),
        }
    }
}

/// The variable that tells a Windows program which terminal it talks to.
pub open spec fn term_variable() -> (Seq<char>, Seq<char>) {
    ("TERM"@, "xterm-256color"@)
}

/// The interactive shell of a platform.
pub open spec fn login_model(platform: Platform) -> CommandModel {
    match platform {
        Platform::Windows => CommandModel {
            program: Some("cmd.exe"@),
            args: Seq::empty(),
            env: seq![term_variable()],
        },
        Platform::Unix => CommandModel { program: None, args: Seq::empty(), env: Seq::empty() },
    }
}

/// The shell of a platform, told to run one command.
pub open spec fn exec_model(command: Seq<char>, platform: Platform) -> CommandModel {
    match platform {
        Platform::Windows => CommandModel {
            program: Some("cmd.exe"@),
            args: seq!["/C"@, command],
            env: seq![term_variable()],
        },
        Platform::Unix => CommandModel {
            program: Some("sh"@),
            args: seq!["-c"@, command],
            env: Seq::empty(),
        },
    }
}

/// The program that serves a session: the interactive shell, or one command.
pub open spec fn command_model(command: Option<Seq<char>>, platform: Platform) -> CommandModel {
    match command {
        None => login_model(platform),
        Some(command) => exec_model(command, platform),
    }
}

/// Picks the program for a session: the login shell, or a shell for one command.
pub fn build_command(command: Option<&str>, platform: Platform) -> (plan: CommandPlan)
    ensures
        plan@ == command_model(
            match command {
                Some(text) => Some(text@),
                None => None,
            },
            platform,
        ),
{
    match command {
        None => login_shell(platform),
        Some(cmd) => exec_shell(cmd, platform),
    }
}

/// The interactive shell (what `ssh host` expects).
///
/// On Windows `cmd.exe` plays nicer with Linux SSH clients than
/// PowerShell/PSReadLine, which emits ConPTY DEC mode sequences that can
/// corrupt the client TTY.
pub fn login_shell(platform: Platform) -> (plan: CommandPlan)
    ensures
        plan@ == login_model(platform),
{
    let plan = match platform {
        Platform::Windows => CommandPlan {
            program: Some("cmd.exe".to_owned()),
            args: Vec::new(),
            env: vec![("TERM".to_owned(), "xterm-256color".to_owned())],
        },
        Platform::Unix => CommandPlan { program: None, args: Vec::new(), env: Vec::new() },
    };
    assert(plan@.args =~= login_model(platform).args);
    assert(plan@.env =~= login_model(platform).env);
    plan
}

/// A shell that runs a single command (what `ssh host command` expects).
pub fn exec_shell(command: &str, platform: Platform) -> (plan: CommandPlan)
    ensures
        plan@ == exec_model(command@, platform),
{
    let plan = match platform {
        Platform::Windows => CommandPlan {
            program: Some("cmd.exe".to_owned()),
            args: vec!["/C".to_owned(), command.to_owned()],
            env: vec![("TERM".to_owned(), "xterm-256color".to_owned())],
        },
        Platform::Unix => CommandPlan {
            program: Some("sh".to_owned()),
            args: vec!["-c".to_owned(), command.to_owned()],
            env: Vec::new(),
        },
    };
    assert(plan@.args =~= exec_model(command@, platform).args);
    assert(plan@.env =~= exec_model(command@, platform).env);
    plan
}

/// A remote command reaches a named shell whole, as its last argument, on
/// every platform.
pub proof fn law_command_is_one_argument(command: Seq<char>, platform: Platform)
    ensures
        command_model(Some(command), platform).program is Some,
        command_model(Some(command), platform).args.len() == 2,
        command_model(Some(command), platform).args.last() == command,
{
}

/// On Windows a remote command, whatever it is, is run by `cmd.exe /C`, with the
/// whole command as one argument, in a terminal called `xterm-256color`.
pub proof fn law_windows_command(command: &str, plan: CommandPlan)
    requires
        call_ensures(build_command, (Some(command), Platform::Windows), plan) || call_ensures(
            exec_shell,
            (command, Platform::Windows),
            plan,
        ),
    ensures
        plan.program matches Some(program) && program@ == "cmd.exe"@,
        plan.args@.len() == 2,
        plan.args@[0]@ == "/C"@,
        plan.args@[1]@ == command@,
        plan.env@.len() == 1,
        plan.env@[0].0@ == "TERM"@,
        plan.env@[0].1@ == "xterm-256color"@,
{
    let model = exec_model(command@, Platform::Windows);
    assert(plan@ == model);
    assert(plan@.args.len() == plan.args@.len() && plan@.env.len() == plan.env@.len());
    assert(plan@.args[0] == plan.args@[0]@);
    assert(plan@.args[1] == plan.args@[1]@);
    assert(plan@.env[0] == (plan.env@[0].0@, plan.env@[0].1@));
}

/// On Unix a remote command, whatever it is, is run by `sh -c`, with the whole
/// command as one argument, in the environment of the server.
pub proof fn law_unix_command(command: &str, plan: CommandPlan)
    requires
        call_ensures(build_command, (Some(command), Platform::Unix), plan) || call_ensures(
            exec_shell,
            (command, Platform::Unix),
            plan,
        ),
    ensures
        plan.program matches Some(program) && program@ == "sh"@,
        plan.args@.len() == 2,
        plan.args@[0]@ == "-c"@,
        plan.args@[1]@ == command@,
        plan.env@.len() == 0,
{
    let model = exec_model(command@, Platform::Unix);
    assert(plan@ == model);
    assert(plan@.args.len() == plan.args@.len() && plan@.env.len() == plan.env@.len());
    assert(plan@.args[0] == plan.args@[0]@);
    assert(plan@.args[1] == plan.args@[1]@);
}

/// Without a command the interactive shell is started, without arguments: on
/// Windows `cmd.exe` in a terminal called `xterm-256color`, elsewhere the default
/// program in the environment of the server.
pub proof fn law_login_shell(platform: Platform, plan: CommandPlan)
    requires
        call_ensures(build_command, (None::<&str>, platform), plan) || call_ensures(
            login_shell,
            (platform,),
            plan,
        ),
    ensures
        plan.args@.len() == 0,
        platform == Platform::Windows ==> {
            &&& plan.program matches Some(program)
            &&& program@ == "cmd.exe"@
            &&& plan.env@.len() == 1
            &&& plan.env@[0].0@ == "TERM"@
            &&& plan.env@[0].1@ == "xterm-256color"@
        },
        platform == Platform::Unix ==> plan.program is None && plan.env@.len() == 0,
{
    assert(plan@ == login_model(platform));
    assert(plan@.args.len() == plan.args@.len() && plan@.env.len() == plan.env@.len());
    if platform == Platform::Windows {
        assert(plan@.env[0] == (plan.env@[0].0@, plan.env@[0].1@));
    }
}

} // verus!
