# rust_engine

The bookkeeping of a small 2D engine, verified with Verus, and the program
that drives the GPU around it.

- `src/` is the verified library: render queues and the order of draw calls
  (`render_queue`, `graphics`), shaders and materials (`shader`,
  `shader_store`, `material`), the frame semaphore ring, memory-type choice
  and texture staging (`gfx_helper`), the little-endian SPIR-V cache format
  (`shader`), window event handling (`win`), the value pool (`pool`) and the
  script-module plumbing (`game_core`, `js_filesystem`, `fs_binding`).
- `app/` is the program: window, GPU device and command recording through
  `gfx-hal`, cameras and transforms (floating point), and file I/O. It calls
  the library for every decision above.
- `tests/` runs the library on concrete values.
