//! Streaming voxel terrain around a moving observer.
//!
//! The world is an unbounded grid of chunks, cubes of voxels. This library
//! holds the parts of a streaming engine that decide and compute:
//!
//! - [`block`]: the kinds of voxel and their tiles in the texture atlas;
//! - [`chunk`]: a chunk, and its generation from a terrain sampler;
//! - [`mesh`]: the surface mesh of a chunk, with hidden faces left out;
//! - [`store`]: the cache of generated chunks, the set of loaded chunks and
//!   the queue of coordinates that await generation;
//! - [`generation`]: filling the queue around the observer and draining it
//!   into the cache;
//! - [`loading`]: loading what has come into view and unloading what has
//!   left it;
//! - [`region`]: the same without a queue, generating and loading in one
//!   pass;
//! - [`terrain`]: questions about the terrain that sampling answers;
//! - [`limit`]: the arithmetic of passes that stop at a limit.
//!
//! Rendering, physics, input, time and the terrain function itself belong to
//! the program that uses the library. It hands in the observer's chunk
//! coordinate and a sampler, and takes meshes and lists of what to spawn and
//! despawn back.

pub mod block;
pub mod chunk;
pub mod generation;
pub mod limit;
pub mod loading;
pub mod mesh;
pub mod region;
pub mod store;
pub mod terrain;
