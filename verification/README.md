# quartz_cli

The command-line tool to build and test HTTP requests, with its logic
verified by Verus.

- `src/` is the library. Each command is a function of a run context
  (`Ctx`): the arguments, the configuration, the project's contents held in
  memory (`project::Project`) and the text the command prints. Contracts
  state what each command prints and how it changes the project;
  `action::cmd` dispatches a command and hands back those that need the file
  system, the network, an editor or a terminal. `laws.rs` holds properties
  that span several operations.
- `app/` is the program around it: it reads the command line with clap,
  loads the `.quartz` directory into a `Project`, runs `action::cmd`, carries
  out what is handed back (sending requests with hyper, editing files,
  completions), and writes the project back.
- `tests/` runs command scenarios against the library.

## Collections

Maps of text to text (query parameters, headers, variables) are
`strmap::StrMap`, a vector of pairs with distinct keys, and the cookie jar
is a vector of cookies with distinct keys, each with that invariant stated.
Verus specifies `std::collections::HashMap` and `HashSet`, but with `String`
keys, or keys of a derived `Hash`, nothing about their contents can be
proved, so the contracts could not say what a lookup or an insertion gives.
A vector of pairs also keeps the order of insertion, which the query
string follows.
