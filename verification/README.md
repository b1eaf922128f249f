# freemarker

The computing core of a FreeMarker template engine, written in Verus: every
function under `src/` carries a contract, and Verus proves each body against
it.

## What is not here

The library holds the engine's computations, not the running of templates:
there is no template execution (`render`, the directives' effects on output,
scopes, includes and imports), no arithmetic, and the evaluator takes a
subset of the expression language (see `evaluable` in `src/eval.rs`): no
`+ - * / %`, string interpolation, ranges, hash literals, method calls or
built-in variables inside expressions, and none of the built-ins that turn
numbers or dates into text.  Errors carry no template location.

## Layout

- `src/` — the verified library.
  - `text`, `number`, `value`, `error` — characters and UTF-16 units, exact
    decimal numbers, the template model values and the errors of the engine.
  - `ast`, `describe` — expressions and how error messages describe them.
  - `eval`, `eval_util`, `compare` — the expression evaluator (literals,
    variables, `.name`, `[key]`, defaults, `??`, logic, comparisons, the
    sequence built-ins with lambdas, the date-kind built-ins and
    `?markup_string`) and its comparison rules.
  - `markup` — `?esc` / `?no_esc` on values that are already markup.
  - `number_parse` — `?number` on a text.
  - `setting_directive`, `template_settings` — what `<#setting>` changes,
    the settings themselves, and the built-in variables read from them.
  - `element` — template elements as the instruction stack of an error
    describes them.
  - `sequences`, `seq_builtins`, `sort`, `slicing`, `loops` — sequence
    built-ins, sorting, slicing and the loop-variable built-ins.
  - `strings`, `collation`, `whitespace` — string built-ins, collation order
    and white-space stripping of template text.
  - `macro_args` — binding of macro and function arguments, defaults and
    catch-all parameters.
  - `settings`, `output_format`, `combined_format`, `paths`, `version`,
    `time_zone`, `number_output`, `output_encoding` — settings values,
    output formats and escaping, template names, versions, time zone names,
    number printing and the encoding of the output.
  - `laws` — properties that relate several operations, stated and proved.
- `tests/` — tests on concrete values, run against the compiled library.
- `app/` — conversion of JSON data into template values (`serde_json`).

Outside crates (`unicode-normalization`, `encoding_rs`, `bigdecimal`,
`num-bigint`, `chrono`, `chrono-tz`) are reached through a few small functions whose
contracts state what their documentation promises.
