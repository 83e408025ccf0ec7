# jcode_core

The decisions of a coding agent, written in Rust and proved with Verus: how a
patch is read and carried out, how a commit is checked and assembled, which
questions may be asked, how tool servers are probed and pooled, how remote
operations stand on a line.

- `src/` is the library. Every function states what it returns; what holds of
  several functions together is stated by proof functions whose names start
  with `law_`.
- `tests/` run the library on concrete values.
- `app/` is ordinary Rust around it: files, processes, the network, and the
  tasks that wait on them. Where outside work and decisions alternate, the
  library holds the decisions as a machine that says what comes next, and the
  program hands back what came of it.

| module | what it decides |
| --- | --- |
| `apply_patch` | the patch grammar, placing chunks, carrying out hunks, the report |
| `git` | commit messages, paths, and the stages of a commit or a checkpoint |
| `questions`, `ask_user_question` | questionnaires, their answers, and which of them wait |
| `mcp` | event streams, the HTTP transports, the shared pool |
| `openrouter` | request bodies, retries, how failures are told |
| `ssh_ops`, `session_listing` | remote operations and the session picker |
| `experimentals`, `session_model`, `herdr` | tools by tag, models by session, pane reports |
| `json`, `text`, `text_map`, `sort`, `timestamp` | what the others are built of |
