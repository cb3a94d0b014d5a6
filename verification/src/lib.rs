//! Scene backbone of a small 3D engine: a generational slot store that hands
//! out validity-checked handles, and the transform hierarchy built on it.
//!
//! - `storage` holds the slot store, `handle` the handles that name its
//!   entries, `history` what holds of a store over any sequence of calls.
//! - `math` is the boundary to `glam`, which does all floating-point work.
//! - `transform` holds the local transform of an entity and the node that
//!   carries it in the hierarchy.
//! - `graph` holds the hierarchy itself: a forest of nodes with cached world
//!   matrices that are recomputed lazily, along the chain of dirty nodes.
//! - `entity` and `scene` hold the mesh objects, cameras and meshes, each
//!   object and camera tied to a transform node of its own.
//! - `laws` states what follows from the contracts of the hierarchy.
//!
//! Every function states what it does in its contract, and every contract is
//! proved, but for the thin calls into `glam` in `math`.

pub mod entity;
pub mod error;
pub mod graph;
pub mod handle;
pub mod history;
pub mod laws;
pub mod math;
pub mod scene;
pub mod storage;
pub mod transform;
