# gt_crust

Support library for Rust on the GameTank, a 6502-based console, with its logic
verified by Verus.

- `src/crt`: the compiler runtime routines the 6502 target calls for 8- and 16-bit
  division, remainder and shifts, proved equal to the arithmetic they stand for.
- `src/system`: world and screen positions, rectangle intersection and drawing, and
  the VIA bank-switch and profiler protocols as pure functions.
- `src/boot.rs`: `memset` and the address split that boot uses.
- `src/dgtf`: the build-time sprite sheet assembly and the string-to-glyph mapping of
  the font's character table.
- `app/`: the hardware side (memory-mapped registers, boot code, interrupt vectors,
  exported runtime symbols) and the token generation of the build-time helpers.
