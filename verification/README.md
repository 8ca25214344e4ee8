# patchview

The logic of a code-review application, written and proved in Verus.

- `src/` is the library. It holds no window, process, thread or socket: what it
  decides is stated in `requires` and `ensures` clauses and proved.
  - `rows`, `review`, `paint`: a diff as display rows in two layouts, the cursor
    on them, and how they look.
  - `git`, `resolve`, `base_refs`, `patch`, `files`, `remote`: which `git`
    commands to run and what to make of their outcome. A task hands out one
    command at a time and takes in its outcome.
  - `shell`, `ssh`: quoting for a remote shell, connection profiles, and the
    replies of a shell that runs one command after another.
  - `uri`, `rpc`, `lsp`, `symbols`: the client's side of a language server.
  - `chat`: arguments and event stream of an assistant's command.
  - `config`: where the configuration is and what a broken one means.
  - `text`, `number`, `bytes`, `json`: what the others are built from.
- `tests/` runs the library on concrete values.
- `app/` is the program around it: windows, processes, files.

The proofs rest on a few trusted declarations, each with a comment that says
what is believed: `String::push`, `String::from_utf8` and
`String::from_utf8_lossy` of the standard library, `shlex::split`, and the
reading and writing of JSON by `serde_json`.
