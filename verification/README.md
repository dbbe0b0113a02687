# lmsh

A minimal POSIX-style shell, as a verified library and a thin program around it.

`src/` holds the logic, with contracts proved by Verus:

- `arguments` — the command line (`-i`, `-l`, `-V`, their long forms, `--`, and
  the options that stop the program; their order and repetition do not matter); the root module also has the simpler
  command line of the first form of the loop.
- `config_file`, `init_files` — where the configuration file is looked for
  (`$HOME/.config` and `$XDG_CONFIG_DIRS`, then `lmsh/init.lmsh`, over the
  bytes of paths, which need not be UTF-8) and the order in which the
  start-up files run.
- `repl::grammar` — the grammar of scripts as functions on characters;
  `repl::parser` — the parser, proved to follow it and to terminate on every
  input, and to report where a script is rejected with the messages that the
  parts of a `case` statement give; `repl::tree` — the syntax tree and its
  mathematical model.
- `repl` and the root module — the decisions of the read-eval loops, what a
  whole run over a file or for the user returns, and the messages of their
  errors (a syntax error in a file is the result of its run).
- `text` — characters, strings and decimal numbers.

`app/main.rs` is the program: it reads the environment, files and the
terminal, and follows the library's decisions.  `tests/` checks the library on
examples, and compares the parser with the same grammar written with the
`combine` crate.
