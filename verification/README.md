# riven

A compiler for the Riven language that produces Lua, written in Verus.

- `src/` is the verified library: the lexer (`lexing`), the parser (`parsing`),
  the type checker (`validation`), the Lua code generator (`transpiling`) and the
  pipeline that ties them together (`compiler`). Each stage states what it
  produces: the lexer gives the tokens the text spells, the parser records every
  token it reads, the checker types each function body against the written one,
  and the code generator names every id with a distinct Lua variable.
- `app/` is the command-line program: it reads the arguments and the source
  file, writes the outputs under `out/`, and can run the produced Lua.
- `tests/` runs the library on concrete programs.
