# krets

A SPICE-like circuit simulator. The netlist reader is a library verified
with Verus; the command line program and the numerical solver are ordinary
Rust around it.

## Layout

- `src/` — the verified library:
  - `text`, `syntax`, `number`: characters, names, blanks, comments, lines,
    and numeric values with SPICE suffixes (kept exactly as written: a
    decimal literal and a power of ten);
  - `elements/*`: the element cards (R, C, L, V, I, D, Q, M, X), the
    `Element` enum, and subcircuit definitions, instances and their
    expansion;
  - `model`, `models/*`: `.model` cards;
  - `name_map`: a map from names to values that keeps insertion order;
  - `circuit`, `parser`: a whole netlist read into a `Circuit`, with the
    numbering of the unknowns of the modified nodal analysis;
  - `stamp`: where each element's entries land in the system (ground and
    unnumbered names contribute nothing);
  - `newton`: the decisions of the Newton-Raphson iteration;
  - `sweep`: the source that a DC sweep steps, and its value;
  - `spacing`, `blank_kinds`: proofs that any run of spaces and tabs reads
    as one separator, card by card and for a whole netlist;
  - `letter_case`: the proof that a card's leading letter reads in either
    case;
  - `comments`: the proofs that text after a `%` or `*` on a line, and
    lines that hold only a comment or nothing, change nothing;
  - `keywords`: the proofs that the line keywords (`.model`, `.subckt`,
    `.ends`, `.control`, `.endc`, `.end`), the kinds of `.model` cards and a
    voltage source's parameter keywords (`DC`, `AC`, `PULSE`, `SIN`) read
    in any case;
  - `control`: the proof that a `.control` ... `.endc` block changes
    nothing;
  - `order`: the proof that, in a netlist of element cards, `.model`
    cards (no name given two models) and `.end`, the order of the lines
    changes only the numbering of the unknowns;
  - `definitions`: when the definitions of a netlist are refused.
- `app/` — the `krets` command: the TOML analysis specification, file
  access, the conversion of values to `f64`, the values of the element
  stamps and the OP / DC / AC / transient solvers (faer).
- `tests/` — tests of the library.

Usage:

```bash
krets krets.toml
```

with a `krets.toml` such as

```toml
circuit_path = "low_pass_filter.cir"

[analysis.ac]
frequency = 1000.0
```
