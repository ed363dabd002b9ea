//! Where the server listens, and how a client reaches it.
use vstd::prelude::*;

verus! {

/// The address that stands for all interfaces.
pub const ALL_INTERFACES: &'static str = "0.0.0.0";

/// The address of the machine itself.
pub const LOOPBACK: &'static str = "127.0.0.1";

/// The text of the socket to listen on.
pub open spec fn socket(bind: Seq<char>, port: u16) -> Seq<char> {
    bind + ":"@ + crate::text::decimal(port as nat)
}

/// The host that a client on this machine can use.
pub open spec fn reachable(bind: Seq<char>) -> Seq<char> {
    if bind == ALL_INTERFACES@ {
        LOOPBACK@
    } else {
        bind
    }
}

/// The socket to listen on, as `address:port`.
pub fn socket_text(bind: &str, port: u16) -> (text: String)
    ensures
        text@ == socket(bind@, port),
{
    let mut text = bind.to_owned();
    text.append(":");
    text.append(crate::text::decimal_text(port).as_str());
    text
}

/// The host to connect to: the address that the server binds, or this machine
/// where it binds all interfaces.
pub fn connect_host(bind: &str) -> (host: &str)
    ensures
        host@ == reachable(bind@),
{
    if bind.to_owned() == ALL_INTERFACES.to_owned() {
        LOOPBACK
    } else {
        bind
    }
}

/// The command line that connects a client.
pub fn connect_command(bind: &str, port: u16, user: &str) -> (text: String)
    ensures
        text@ == "ssh -p "@ + crate::text::decimal(port as nat) + " "@ + user@ + "@"@ + reachable(bind@),
{
    let mut text = "ssh -p ".to_owned();
    text.append(crate::text::decimal_text(port).as_str());
    text.append(" ");
    text.append(user);
    text.append("@");
    text.append(connect_host(bind));
    text
}

/// The socket is the address as given, a colon, and the port in decimal.
pub proof fn law_socket_text(bind: &str, port: u16, digits: String, text: String)
    requires
        call_ensures(crate::text::decimal_text, (port,), digits),
        call_ensures(socket_text, (bind, port), text),
    ensures
        text@ == bind@ + ":"@ + digits@,
{
}

/// A client connects to the address that the server binds, whatever it is, but
/// for the address of all interfaces, which no client can connect to.
pub proof fn law_connect_host(bind: &str, host: &str)
    requires
        call_ensures(connect_host, (bind,), host),
    ensures
        bind@ == "0.0.0.0"@ ==> host@ == "127.0.0.1"@,
        bind@ != "0.0.0.0"@ ==> host@ == bind@,
{
}

/// The command line names the port in decimal, the user and the host, as they
/// are.
pub proof fn law_connect_command(
    bind: &str,
    port: u16,
    user: &str,
    digits: String,
    host: &str,
    text: String,
)
    requires
        call_ensures(crate::text::decimal_text, (port,), digits),
        call_ensures(connect_host, (bind,), host),
        call_ensures(connect_command, (bind, port, user), text),
    ensures
        text@ == "ssh -p "@ + digits@ + " "@ + user@ + "@"@ + host@,
{
}

} // verus!
