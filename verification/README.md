# zlink

Varlink in Rust, verified with Verus: interface descriptions and their parser, calls, replies and
chains of calls, the decisions behind Unix sockets, state that tells of its changes, and the code
that makes a type a service.

- `src/idl`: interface descriptions. `grammar.rs` states what each production matches, `parse.rs`
  is the parser, proved against it, and `laws.rs` and `boundaries.rs` prove what holds of every
  parsed interface.
- `src/introspect.rs`: whether the custom types that a method uses are declared.
- `src/macros`: names under case conventions, the attributes of macros, and the code that the
  `service` macro generates, as text.
- `src/connection`: chains of calls and their replies, credentials, and what follows from the
  answers of the kernel.
- `src/mock_socket.rs`, `src/notified.rs`: sockets for tests, and the replies to calls that listen.
- `app`: what cannot be verified: system calls, channels, streams, serialisation, macro input.

Every public function says in its `ensures` what it returns. Functions whose names start with `law_`
prove what relates several of them. Calls into other crates go through functions marked
`external_body`; each says in its documentation what is taken on trust.
