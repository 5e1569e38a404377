# lion_calculator

The core of a four-mode desktop calculator (basic, scientific, financial,
programmer), written in Verus. The functions in `src/` carry contracts that
the verifier proves, except five small trusted wrappers whose contracts
restate what the standard library and chrono document: `String::push`,
`String::pop`, `char::is_alphanumeric`, `SystemTime::elapsed` (the clock)
and chrono's `DateTime::from_timestamp` with `%H:%M:%S` formatting. History
records are stamped with the UTC time of day.

## Layout

- `src/text.rs` — character-level helpers on strings.
- `src/programmer.rs` — the programmer engine: entry in HEX/DEC/OCT/BIN
  (HEX/OCT/BIN show a value's 64-bit two's-complement pattern), base
  conversion, bit widths, AND/OR/XOR/NOT and shifts, with its laws (a value
  written in any base reads back as itself, switching base keeps the value,
  a backspace undoes a taken digit, complementing twice is the identity).
- `src/history.rs` — the bounded history of results, newest first.
- `src/calculator.rs` — the modes, the button meanings of each mode, the
  number-entry text and its flags, the arming of a TVM solve by `CPT`, the
  factorial, and the programmer-mode button dispatch.
- `src/lexer.rs`, `src/parser.rs` — the scientific-mode expression language:
  a tokeniser and a recursive-descent compiler to a postfix program, with the
  law that every compiled program is well formed on the stack.
- `src/financial.rs` — the five TVM registers and the choice of the four
  known values that a solve needs.
- `app/` — the window (slint), and the parts that compute on `f64`: the
  arithmetic of the basic and scientific modes, the memory register, the TVM
  solvers, the tax and margin helpers, and running a compiled expression.
- `tests/` — tests of the library.
