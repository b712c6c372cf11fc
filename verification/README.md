# calcli

A terminal calculator with variables, one-parameter functions, batch
definitions, line references (`lin_1`, `lin_2`, ...), implicit
multiplication, scientific notation and a Vi-style interface.

The library under `src/` holds the calculator's logic with Verus contracts:

- `eval` — evaluation of an input line as a sequence of steps. A step either
  ends with the result, asks for outside work (evaluating a prepared
  expression, reading a number, writing one in scientific notation), or asks
  to be continued. The arithmetic is done by the caller, on `f64` values,
  and handed back as bits and text.
- `parser`, `implicit_multiplication` — rewriting an expression: line
  references and defined names in brackets, `*` where multiplication is
  implied.
- `definition_handler` — reading `let` statements and checking names.
- `eval_context`, `maps`, `constant` — the session: variables and functions
  in definition order, settings.
- `input_handler`, `vi_inputs` — the line editor (with LaTeX names turned into
  symbols) and the history of typed lines.
- `tui_handler` — the interface's state, what each key does, which window is
  selected, and what an entered line adds to the results.
- `cli` — the prompt's commands.

`app/` is the program around it: argument handling, the terminal (ratatui),
files (serde_json), and the `f64` work (meval, number formatting).
