# chat

A terminal chat: a main server that broadcasts each client's lines to the lobby, and
private peer-to-peer sessions between two clients (`\fork name`).

Layout:

- `src/` is the verified library: the wire format (frames for requests, responses and
  peer messages, with read-back laws), the chat-name registry with numbered variants for
  taken names, the typed-command parser, the input handler's session table, and the
  decisions the client, the server and a peer session take on each message.
- `app/` runs it: sockets, tasks, channels and the terminal. It hands the library plain
  values and performs the actions the library returns.
- `tests/` exercises the library on concrete values.

Commands: `\quit`, `\users`, `\fork name`, `\switch n` (`\sw n`), `\sessions` (`\ss`),
`\lobby` (`\lob`).

The name registry (`Names`) and the set of peers in session (`PeerNames`) hold their
names in `Vec`s, with "no name twice" as their stated invariant, rather than in a
`HashSet`/`HashMap` keyed by `String`: with text keys the verifier could not be brought to
prove even that a map holds one entry after one insert, so the lists are what lets the
registry's contracts (and its laws) be proved.

Peer notes are shown as `P-> ` in a session this user opened (A mode) and `P~> ` in one
it accepted (B mode).
