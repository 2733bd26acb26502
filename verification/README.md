# ssh-agent-filter

A filtering proxy for `ssh-agent`. It listens in place of the agent and lets a client
see and use only the keys that were named on the command line: some without question,
some only when the user confirms each use. `afssh` runs one `ssh` or `git` command
behind a proxy of its own.

The rules of the proxy are a library that is verified with
[Verus](https://github.com/verus-lang/verus): what each function returns is stated in
its contract and proved, and so are the properties that span functions.

## Layout

- `src/wire.rs`, `src/packet.rs`, `src/protocol.rs`: how messages look on the wire.
- `src/identities.rs`: an agent's list of keys.
- `src/fingerprint.rs`, `src/text.rs`, `src/keys.rs`: the texts that name a key, and
  sets and tables of keys.
- `src/setup.rs`, `src/warnings.rs`: which keys the command line selects, and what it
  names without there being such a key.
- `src/auth_data.rs`: what the data of a sign request says about the login behind it.
- `src/session.rs`: what is done about each request of a client, as a state machine.
- `src/laws.rs`: what holds of a connection as a whole.
- `src/launcher.rs`, `src/listener.rs`: the decisions of `afssh`, and what the proxy
  tells the shell.
- `app/`: the two programs around the library: sockets, pipes, processes, the question
  to the user.
- `tests/`: the library on concrete values.

## What is taken on trust

Base64 comes from the crate `base64`, hex digits from `hex`, digests from `md5`, the
reading of bytes as text and the clock from the standard library. Each call stands in
a small function with a contract that Verus believes; `app/` is not verified.
