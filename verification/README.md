# serv

The verified core of serv, a small concatenative scripting language for
web servers. A program maps routes and words to expressions:

```
/ => {hello world}
@greet => {hello $name!}
```

The library (`src/`) holds the parts of the language and of the server that
compute, each with a contract that Verus proves:

- `lexer`, `parser`, `ast`, `strings`: program text to tokens to syntax
  trees; tokens tile the input, a string of plain text and balanced
  brackets reads back as written, and so does a route declaration
  `/route => {string}`.
- `compiler`, `lists`: words compiled into the functions they name,
  taking the next word as an argument where they need one; `count`, `sum`
  and the choice `?` of the standard library.
- `dictionary`: scopes of words that read through to the scopes around
  them, and the default port.
- `module`: modules that store values at dotted addresses, making nested
  modules on the way; a value stored at an address reads back from it.
- `engine`, `table`, `request`: values, tables (`key = value;` records,
  query strings, cookies) and templates filled from them.
- `request_state`, `substitution`, `command`, `commands`: the state of a
  request and the commands of a route, with `$(NAME)` variables in their
  arguments. Where a command needs a process, a file or the database, it
  hands back an `Effect` that the caller performs.
- `body`, `options`, `config`, `servstring`, `json`, `json_parser`,
  `json_doc`, `template`: response bodies and headers, route arguments, TLS
  keys read from PEM text, JSON tokens, JSON values read from them and
  written back out, request bodies read as JSON documents with the `json`
  crate, and templates written back out or filled in with the values of
  their expressions.

`app/main.rs` is the command line: it reads the program, parses it with the
library, and performs the effects of commands (running processes, reading
files, and printing the numbers of a request body's JSON document as
single-precision floats before the library stores them as variables).
