# kya

A small scripting language: a lexer, a parser, a bytecode compiler, a disassembler and a
dumper of syntax trees, verified with Verus, and a virtual machine that runs the bytecode.

Layout:

- `src/lexer.rs` splits text into tokens; `Lexer::next_token` is specified by `lex_step`.
- `src/parser.rs` builds the syntax tree (`src/ast.rs`); the grammar is written as spec
  functions over the token sequence, and `Parser::parse` yields exactly what they say.
- `src/compiler.rs` turns a tree into a `CodeObject` (`src/bytecode.rs`); `compile_spec` is
  the mathematics of the compilation, byte for byte, jumps and overflow included.
- `src/decoding.rs` says when code reads as whole instructions, and proves that compiled
  code does.
- `src/bytecode.rs` also holds the disassembler (`CodeObject::dis`), specified by
  `disassembly`.
- `src/dumper.rs` writes a tree as text (`dump_spec`); a number literal shows as the text
  that the runtime pairs it with (the value it reads as), or else as its digits written out.
- `src/interpreter.rs` holds the frame of a running code object, and `src/opcodes.rs` what
  each instruction does to it (`step_spec`): operands, the stack, jumps, and the work it
  leaves to the runtime (`Effect`), which holds the objects.
- `src/objects/` holds the operations of the built-in objects that work on plain values:
  `split`, `substr`, `char_at`, `at`, `slice`, how lists and hashes show, how a call binds
  its arguments, the method tables, attribute lookup along a chain of types, how an
  instance is initialised, how a type inherits its slots, and the checks on arguments.
- `src/errors.rs`, `src/url.rs`, `src/socket.rs`, `src/text.rs`: errors and their reports,
  URLs through the `url` crate, the address and the errors of sockets, and small helpers.
- `app/` is the command line (`--dump`, `--disassemble`, or run) and the runtime around the
  verified frame: its numbers are floating point and its objects are shared and mutable, so
  it performs the effects of the instructions and runs the loop of the machine.

Operations that the language stops on (the lexer failing on text the parser reaches, tokens
that end inside a statement, a jump that no longer fits in a byte, an instruction the
disassembler cannot show) have a `try_`
form that returns `None`; the plain form requires that this does not happen.
