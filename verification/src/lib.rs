//! The core of a Whitted ray tracer, verified: colours, the recursion with
//! its depth limit, and the renderer that shares a frame out among workers
//! as horizontal bands and puts their results together again.
//!
//! Geometry and shading are the caller's: they reach the library as
//! functions, so that what is proved here holds for any of them.

pub mod assembly;
pub mod bands;
pub mod frame;
pub mod renderer;
pub mod scene;
pub mod tracer;
pub mod utils;
