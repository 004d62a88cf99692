# GGUF reader

A verified reader for GGUF model files, written in Verus.

- `src/bytes.rs`: little-endian integer decoding.
- `src/text.rs`: UTF-8 decoding of byte ranges.
- `src/gguf/`: the file format. `header` decodes the 24-byte header,
  `metadata` the typed key-value pairs, `tensors` the tensor descriptions
  and their weights (`F32` words and ternary blocks), `loader` a whole file
  held in memory. Each decoder is specified by a spec function over the
  bytes (`spec_value`, `spec_metadata`, `spec_tensors`, `spec_file`, ...)
  and proved to return exactly what it describes, errors included.
- `src/tokenizer/`: the tokenizer front end, which reads the tokenizer
  entries of the metadata; no tokenizer is implemented, so it always fails,
  and its contract says with which error.
- `app/main.rs`: the program: reads a model file from disk, prints a
  summary and tokenizes a message, turning errors into messages.

Floating-point values are kept as the bits of their IEEE 754 encoding;
`f32::from_bits` / `f64::from_bits` give the numbers.
