# ppl

The front end of PPL, the Pseudo-Programming Language, as a verified
library.

- `src/syntax`: the token grammar (`scan`), the lexer state machine over a
  source (`stream`, `lexer`, `interactive`), tokens and their text
  (`token`, `display`), keywords, identifiers, operator precedence, the
  statement parser (`ast`) and the parsing context (`parse`).
- `src/source_file.rs`, `src/source_location.rs`: source files, line and
  column numbers, spans.
- `src/semantics`: the semantic passes over plain values: conversion of
  types and trait implementation checks (`conversion`, and with generic
  contexts `generic_context`, `convertible`), binding calls to candidate
  functions (`call`, `convertible`), constructors (`constructor`),
  specializing generic types and functions (`monomorphize`), destructors
  (`destructors`), temporaries (`temporaries`), resolving `use`
  (`imports`), references to variables, members and types
  (`references`), conditions, assignments and returns (`statements`),
  annotations (`annotations`), the order of declarations and the
  building of a module step by step (`order`); names for unnamed
  parameters and generic parameters, parameters of a trait type as new
  generic parameters, and lists in diagnostics.
- `src/runtime`: the decimal text of rationals.
- `app/`: reading files and the terminal, diagnostics with their derives,
  and the runtime's exported functions (big numbers, strings, memory,
  threads, the environment).
