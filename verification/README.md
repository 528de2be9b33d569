# irc-bot

A library for writing IRC bots, with a ready-made bot program, whose logic is verified with
Verus.

## Layout

- `src/` — the verified library.
  - `util/` — text helpers (`text`), munging of nicknames against pings, IRC case-folding and
    channel names (`irc`), YAML nodes, their parsing and type-checking against argument
    syntaxes (`yaml`), regexes built through the `regex` crate (`regex`), and a read-only lock.
  - `framework/` — configuration (`config`), errors (`err`), bot commands and their dispatch
    (`bot_cmd`), triggers (`trigger`), the module registry (`modl_sys`), reading messages
    (`irc_msgs`), composing outgoing messages (`irc_comm`), reactions (`reaction`), the bot's
    administrators and owners (`state`), the sandbox profile (`sandbox`), and package
    information (`pkg_info`).
  - `irc_client.rs` — session identities, event tokens, PING answers and session-opening lines.
  - `modules/` — the modules shipped with the library: `default`, `test` and `quote`.
- `tests/` — tests of the library.
- `app/` — the bot program: command-line arguments, reading the configuration and quotation
  files, the IRC session, and the handlers that run the modules' commands.

The program reads a YAML configuration (by default `config.yaml`) and looks for modules' data in
a directory (by default `data`); the `quote` module loads its quotation files from `data/quote`.
