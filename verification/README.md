# pi-command-not-found-adapter

A shell `command-not-found` handler that asks `pi --mode rpc` for the
command the user meant, shows the agent's work on stderr, and prints the
answer's code on stdout for the shell to source.

The library under `src/` holds the logic, each function with a contract
that Verus proves:

| Module        | What it decides                                                   |
| ------------- | ----------------------------------------------------------------- |
| `protocol.rs` | the input, the answer, and how an answer is found in the text     |
| `ask.rs`      | the turn loop and the retry loop, as state machines               |
| `pi.rs`       | pi's command line, the commands sent to it, its events decoded    |
| `prompt.rs`   | the system prompt and the message that asks again                 |
| `config.rs`   | the settings, their defaults, and which config files are merged   |
| `session.rs`  | session ids, the session's paths, the history directory's stamp   |
| `shell.rs`    | shell words for the logged input, and the exit status             |
| `ui.rs`       | the progress block: what to paint and where                       |
| `markdown.rs` | the note's renderer arguments and its plain fallback              |
| `text.rs`     | character classes and small string operations                     |

`app/` is the program around it: argument parsing (clap), reading the
settings (figment), the schemas (schemars), the pi child process, signals,
the terminal and the files of a session.
