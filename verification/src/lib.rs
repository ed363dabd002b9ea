//! The logic of RollingPanda, a lightweight SSH server with baked-in
//! credentials: what it knows and offers, whom it lets in, what it starts for
//! a client, and how bytes travel between the client and the terminal.
//!
//! Files, sockets, terminals and threads belong to the program around the
//! library, which hands events in and carries answers out. All that the library
//! asks of the system is randomness for a host key.
pub mod bridge;
pub mod config;
pub mod creds;
pub mod handler;
pub mod hint;
pub mod hostkey;
pub mod listen;
pub mod pty_filter;
pub mod shell;
pub mod text;
pub mod window;
