//! A small 2D engine's bookkeeping: render queues and draw order, shaders
//! and materials, the frame semaphore ring, GPU memory choices, the SPIR-V
//! cache format, window event handling and script module plumbing.
pub mod fs_binding;
pub mod game_core;
pub mod gfx_helper;
pub mod graphics;
pub mod js_filesystem;
pub mod material;
pub mod pool;
pub mod render_queue;
pub mod shader;
pub mod shader_store;
pub mod win;
