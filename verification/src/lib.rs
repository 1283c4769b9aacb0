//! Verified core of a voxel engine's renderer and profilers: greedy meshing,
//! mesh compression, instance grouping, dirty-range coalescing, GPU limit
//! selection, texture atlas packing, a size-bounded mesh cache, draw
//! planning, chunk mesh bookkeeping and allocation/memory profiling.

pub mod gpu_limits;
pub mod world;
pub mod greedy_mesher;
pub mod instance_streamer;
pub mod zero_alloc;
pub mod allocation_profiler;
pub mod reality_check;
pub mod error;
pub mod clock;
pub mod memory_profiler;
pub mod text;
pub mod adapter;
pub mod mesh_compression;
pub mod gpu_recovery;
pub mod data_mesh_builder;
pub mod chunk_rendering;
pub mod chunk_mesh_adapter;
pub mod async_mesh_builder;
pub mod simple_async_renderer;
pub mod gpu_progress;
pub mod allocation_optimizations;
pub mod culling_pipeline;
pub mod mesh_optimizer;
pub mod final_profiler;
pub mod renderer;
pub mod gpu_meshing;
pub mod mesh_soa;
pub mod mesher;
pub mod indirect_renderer;
pub mod gpu_driven_renderer;
pub mod mesh_simplifier;
pub mod optimized_greedy_mesher;
pub mod gpu_diagnostics;
pub mod cache_profiler;
pub mod instance_buffer;
pub mod preallocated_texture_atlas;
pub mod preallocated_mesh_cache;
pub mod chunk_mesh_state;
pub mod indirect_commands;
pub mod player_input;
pub mod surface_config;
pub mod mesh;
pub mod open_faces;
