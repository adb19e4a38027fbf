# mentat

A local inference engine for reasoning models, with its logic verified by
Verus.

- `src/` is the verified library: the character-level BPE tokenizer and
  its vocabularies, the parser for `<think>` and tool-call blocks, the
  Llama 2 chat prompt format and token display, the file patcher's and
  browser's command handling, the safetensors decoder (F32, BF16, F16 to
  `f32` bit patterns), the plan that maps weight names to transformer
  layers, tensor shape checks and transposition, the stopping rule of
  greedy generation and the key/value cache. Each public
  function states its result over spec functions; the `law_*` proof
  functions state properties across calls (decoding inverts encoding,
  parsed blocks are well formed, writes never go through `..`, ...).
- `app/` is the `mentat` program: command line, file and network I/O,
  the HTTP server, and the floating-point tensor code of the model.
- `tests/` exercises the library on concrete inputs.
