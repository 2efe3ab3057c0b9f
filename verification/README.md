# blang

A compiler for a small language, from source text to signed executables for macOS on ARM.

- `src/analyze`: tokens, syntax trees, types, and the checks that a program has to pass.
- `src/ir`: the intermediate representation, how a checked program becomes one, and how it is shown.
- `src/synthesize`: instructions, registers and machine code for ARM, and the layout of Mach-O files.
- `src/compile.rs`: which files a program is made of, and the way from its trees to machine code.
- `app`: reads source files, prints errors, and writes and runs executables.

All of `src` is verified with Verus. What a function computes is stated in its `ensures`, mostly as a
spec function over the views of its arguments. Where a function cannot go on (a number that does not fit
its field, a type that is not known), that spec function gives `None`. Such functions come in pairs: one
requires that this does not happen, and one whose name begins with `try_` says whether it did.

Proof functions whose names begin with `law_` state what holds of several functions together.
