# RollingPanda

A lightweight SSH-2 server that knows one user: the username and password are
compiled into the binary, and no system accounts are consulted.

The server is in two parts.

- `src/` is the library, written and verified with Verus. It decides everything
  and leaves files, sockets and terminals alone; all that it asks of the system
  is randomness for a host key.
  - `creds`: baked-in credentials and listen port
  - `handler`: authentication and session requests
  - `config`: algorithms and timeouts on offer
  - `hostkey`: the host key
  - `bridge`: the relay between SSH channel and terminal, and its shutdown
  - `shell`: the program behind a session; line endings of the client's input
  - `pty_filter`: keeps private control sequences of ConPTY from the client
  - `hint`, `listen`, `window`, `text`: advice for the log, addresses, window
    sizes, small pieces of text
- `app/` is the program around it: command line, sockets, terminals, threads.

`tests/` holds the library's tests.

Username, password and port are set when the program is built, through
`ROLLINGPANDA_USER` (default `panda`), `ROLLINGPANDA_PASSWORD` (default
`rolling`) and `ROLLINGPANDA_PORT` (default `2222`).
