# ser_parser

A verified reader for FEI/TIA `.ser` series files (electron microscopy).

- `src/` is the library, verified with Verus:
  - `error.rs`: parse errors and the shape of specified parse results;
  - `bytes.rs`: little-endian integers, byte tags, length-prefixed UTF-8
    strings, repetitions;
  - `data.rs`: the values a file holds and their models;
  - `parsers.rs`: the grammar (header, offset tables, data arrays, tags),
    each parser with a specification it is proved to meet;
  - `reader.rs`: the header reader whose strings borrow from the input;
  - `frame.rs`: reading the first element of a whole file;
  - `laws.rs`: properties of the grammar (appending input keeps decided
    answers; a success depends only on the bytes it takes, so reading the
    first element of a file reads nothing else; sizes of tables and arrays;
    magic number).
- `app/` holds the command-line program, the image export and the Python
  module, which do the file I/O and the floating-point conversions.
- `tests/` runs the library on concrete inputs.

Floating-point fields are kept as their IEEE-754 bit patterns in the library;
`f32::from_bits` / `f64::from_bits` give the numbers.
