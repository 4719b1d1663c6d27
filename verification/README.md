# git-remote-iroh

Fetch and push git repositories directly between machines: a git remote helper
that tunnels git's native protocol over [iroh] connections, and a `serve` command
for the other end. The logic is written and proved in [Verus].

- `src/` is the verified library.
  - `proto`: the wire protocol that opens a session
  - `ticket`: `iroh://` URLs, the repository's identity and its git dir
  - `serve`: which sessions are let through, and when serving ends
  - `helper`: the dialogue with git, in connect mode and in offer mode
  - `bridge`: how the two directions of a bridge end
  - `session`: laws on the opening of a session, from end to end
  - `cli`: the command line and what git subprocesses print
  - `hex`, `text`: hexadecimal and text operations
- `tests/` runs the library together with the crates that it calls.
- `app/` is the program: files, subprocesses, and the network.

Calls into other crates stand behind functions marked `external_body` and behind
`assume_specification`; the comment above each says what is relied on.

[iroh]: https://www.iroh.computer/
[Verus]: https://github.com/verus-lang/verus
