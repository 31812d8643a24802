# hodu (verified serialization core)

The model-serialization layer of hodu as a Verus library: every byte format it reads or
writes is specified by spec functions over `Seq<u8>`, and each reader and writer is proved
to compute exactly that specification.

Layout of `src/`:

- `wire` – little-endian integers, UTF-8 strings, bounds-checked reads.
- `container` – the `.hodu` container: metadata region, page-aligned data region, quant
  descriptors, graph blob. `laws` proves that reading a written container, metadata region or
  descriptor table gives back its rows, descriptors and graph, and the alignment of the layout.
- `model` – a model's slots as tensor rows and back (strict load by kind and name), with the
  save/load round-trip law.
- `bind` – binding a weights file's tensors to model slots by name and shape; a successful
  binding is one-to-one.
- `gguf` – the GGUF header/metadata/directory parser and GGML block unpacking (F32, F16,
  Q8_0, Q4_0, Q5_0, Q4_K, Q6_K) into bit patterns and integer lanes.
- `st_import` – safetensors import through the `safetensors` crate.
- `runnable` – resolving a runnable artifact's graph inputs and planning each run; laws show
  that extra or reordered supplied inputs leave what each runtime input is fed unchanged.
- `frontend`, `rng` – broadcasting, dtype promotion, flatten shapes, and the dropout RNG
  bookkeeping of the tensor frontend.

`app/` holds the file I/O, the memory map and the float conversions around the library.

Not here: the `Ctx`/`Tensor` front end, graph evaluation and graph (de)serialization. They
are work of the `kurumi` tensor engine, which this build cannot use; the library plans what a
run feeds the engine (`runnable`) and keeps the frontend's shape and dtype rules (`frontend`).
