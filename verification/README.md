# termcolor_output

The expansion logic of the `colored!` macro, which writes formatted text to a
`termcolor::WriteColor` writer with styling commands (`fg!`, `bg!`, `bold!`,
`underline!`, `intense!`, `reset!`) mixed into the arguments.

- `src/` is the verified library. It works on its own token model
  (`token::Token`), which holds the plain values of the compiler's token trees:
  - `parse`: splitting the macro input at commas, telling styling commands from
    expressions, reading writer / format string / arguments;
  - `format`: reading a format string literal into text and placeholders;
  - `merge`: pairing placeholders with arguments into writes and style changes;
  - `codegen`, `expand`: the generated code, and the whole expansion;
  - `write_fn`: the signature of a generic writing function;
  - `laws`, `readback`: properties of the library as a whole, proved.
- `app/` converts `proc_macro` token streams to and from the library's tokens and
  holds `colored_ln`, which writes to a terminal.
