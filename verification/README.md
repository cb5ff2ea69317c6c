# nettle_cases

Draws the conformance cases for the Meadow diagnostics package against
ariadne 0.6.0, and writes them down in a compact base-64 text: random
reports (their sources, kind, span and the steps that build them, then what
ariadne draws), random colour generators with the colours they make, and
random texts with the lines ariadne splits them into.

`src/` is the library, verified with Verus:

- `rng`: the xorshift64* generator the cases are drawn from.
- `encode`: base-64 digits, signed numbers, strings and flags, and the long
  string literal the whole is written as; each reads back (proved).
- `fingerprint`: FNV-1a.
- `pools`: the fixed lines, terminators, messages, codes and names.
- `inputs`: random sources, colours, configurations and spans.
- `report`: one random report, as the plan of builder steps.
- `colors`: colour-generator cases.
- `lines`: line cases, through ariadne's `Source`.
- `cases`: all the cases in order, with the drawing of each report and the
  colours of each generator left to the caller, and the whole file built
  from them.
- `plan_text`: the law that what is written for a report is its plan's text.
- `file_text`: the whole file, its heading and the three literals.

`app/main.rs` is the program: it hands each report plan to ariadne to draw
(catching the panics ariadne has on some of them), runs the colour
generators (whose brightness is a float), checks the fingerprint of the
ariadne sources it is given, and writes `src/Cases.mw`.
