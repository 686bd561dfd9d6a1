# rgo

A compiler for the rgo language, a small continuation-passing language that is
lowered to NASM assembly for x86-64 Linux, written in Verus.

The library (`src/`) holds the whole compiler with its contracts:

- `compiler::lexer`, `compiler::parser`: source bytes to tokens to syntax trees;
- `compiler::hir_lower`, `compiler::hir`, `compiler::hir_context`,
  `compiler::signature`, `compiler::call_args`: name resolution, argument
  matching, scope capture and closure lifting into the high-level form;
- `compiler::air`, `compiler::air_lower`: functions as flat lists of labels and
  operations on machine words (AIR), with the closure helpers each needs;
- `compiler::emitter`, `compiler::codegen`, `compiler::runtime`: the NASM text of
  each function, its frame, the runtime helpers, `extern` declarations and the
  data section;
- `compiler::pipeline`: source to program text (`compile`), and the rendering of
  the lowered program (`render_normalized_hir`);
- `compiler::format_hir`, `compiler::format_air`, `compiler::codegen_model`: the
  textual forms of the intermediate representations.

`app/main.rs` is the command line: `rgo <input> <target> <output>` compiles the
file `input`, whose entry runs the function `target`, into `output`.
