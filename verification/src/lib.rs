//! A verified cloth simulation core: a point-mass model advanced by Verlet
//! integration and relaxed by iterative distance constraints ("sticks"),
//! together with the logic that builds the constraint graph from a triangle
//! mesh and resolves which vertices are anchored to the owner's transform.
//!
//! Positions are integer vectors in an application-chosen unit; transforms
//! carry fixed-point rotation entries. A thin adapter outside this crate
//! converts the host engine's floating-point data to and from these values.
pub mod anchor;
pub mod cloth;
pub mod cloth_builder;
pub mod config;
pub mod math;
pub mod mesh;
pub mod stick;
pub mod transform;
pub mod vector;
