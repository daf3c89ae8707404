# Nestor

Nesting of parts on sheet material: DXF and SVG outlines go in, arrangements on
stock sheets come out, to be checked, edited, exported and printed.

## Layout

- `src/` is the library, written in Verus. It holds the rules of the
  application that do not reckon with measures: which settings are accepted,
  how parts are numbered, how a job's runs escalate and which result is kept,
  how that result is tidied up, what a pinned part means, how an export is laid
  out and a report worded, and the state that the screens share with everything
  that can happen to it. Each function has a contract, and what holds across
  functions is stated as a `law_...` proof function beside them.
- `tests/` run the library.
- `app/` is the program around it: the window, the command line, files,
  threads, what is reckoned with floats (areas, the clearances that a cut's
  width asks for, colours), and the calls into the nesting engine
  (`app/engine.rs`, the crates `geometry` and `nesting`).

A measure is held by the bits of a 64-bit float. The library compares measures,
which is exact on the bits, and leaves reckoning with them to the program.

## Programs

One binary under two names. Called `nest` it runs one job without a window:

    nest --sheet 2440x1220 --qty 20 bracket.dxf --out result.dxf

Called anything else it opens the window. Dictionaries and fonts are read from
`assets/i18n` and `assets/fonts` beside the binary; what is missing there falls
back to English keys and the built-in font.

## What is taken on trust

The contracts of the few calls that leave the library: reading a dictionary
(`serde_json`), the local time in an export's name (`chrono`), and the system
clock (`std`). Each is marked in the source and says what it claims.
