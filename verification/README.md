# mep_asm

An assembler for the MEP instruction set, verified with Verus. It reads an
assembly file and writes a Unimap program whose `mem` holds the encoded
binary, as a tree of maps 16 wide and 7 deep.

## Layout

- `src/tokenizer.rs`: sources, spans and positions; the lexical grammar as a
  specification over the UTF-8 bytes of the text (`lex`), and the tokenizer
  proved to follow it.
- `src/parser.rs`: the program's types and their views; the grammar over the
  tokens (`lines_spec`, `parse_spec`), the cursor, and the parser proved to
  follow it.
- `src/encoder.rs`: instruction words as lists of fields (`pack`), the
  instruction builder, the layout of a program (offsets, alignment, labels)
  and the encoding of its lines (`encode_spec`).
- `src/inst_encoder.rs`: the instruction formats and the table of mnemonics.
- `src/expressifier.rs`: the Unimap program for a binary.
- `src/utils.rs`: bit fields, text by byte offsets, decimal numbers, errors.
- `src/lib.rs`: `compile`, the composition of the above (`compile_spec`).
- `app/main.rs`: the command line program.

The laws of the library are the public proof functions whose names start
with `law_`.
