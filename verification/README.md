# lumen_check

Name resolution for modules of the Lumen language, and the steps of type inference, written in
Verus: every function states what it does in its contract, and Verus proves it.

Resolution is whole: `resolve` takes a module's tree and gives the definition each name means, or
the first refusal. Inference is here as its steps: unification, the environment of declarations,
what an operator, a call, a field, a record built with braces, or a `?` comes to once the types of
its parts are known, and what a function left waiting is settled to. The walk over a module's
expressions that calls these steps is not part of the library.

## Layout

- `src/` — the library.
  - Resolution: `ast` (the trees a parser hands over), `scope`, `definition`, `order`,
    `resolve` (with `pattern`, `program`, `traits`, `walk`), `prelude`, `library`, `error`,
    `code`.
  - Types: `types`, `table` (the variables inference makes and what each is settled to),
    `unify`, `scheme`, `generalise`, `environment` (with `key`), `filed`, `derive`, `held`,
    `holds`, `bounds`, `boundary`, `surface`, `supplied`, `type_error`, `reaching_java`.
  - What inference does once the parts of an expression are typed: `operators`, `calls`,
    `records`, `building` (a record built with braces), `lookup`, `naming`, and `settle`, which
    answers what a function left waiting.
  - `laws` states what holds across the library's functions; `text` holds the string helpers.
- `tests/` — tests of the library on trees and types written by hand.
- `app/` — reading the library's Lumen sources from a directory.
