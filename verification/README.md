domcp
=====

`domcp` runs MCP server commands (`uvx`, `npx`, `pipx`) inside a container. It detects
whether the server speaks over stdio or over HTTP, and passes no more of the host into the
container than was asked for.

* `src/` is the library: the decisions of the program, as functions from plain values to
  plain values, written in Verus and proved against their contracts.
  `platform` holds what is taken from the standard library and from other crates without
  proof.
* `app/` is the program around it: it reads the command line and the host, runs processes and
  moves bytes between streams.
* `tests/` runs the library.

The proof functions whose names begin with `law_` state what holds of the library as a
whole, such as that a run mounts what its arguments ask for and nothing else.
