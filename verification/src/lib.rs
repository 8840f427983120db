//! A binding generator for a WebAssembly interface-types boundary.
//!
//! The generator takes a parsed interface description — functions and the
//! data types they use — plus a direction, and emits the source-level glue
//! that lowers high-level values into the linear-memory calling convention
//! on one side and lifts them back on the other.  It never executes the
//! module it binds to and performs no I/O of its own: the caller supplies
//! parsed interfaces and persists the produced bundle.
pub mod model;
pub mod abi;
pub mod emit;
pub mod wire;
pub mod generate;
