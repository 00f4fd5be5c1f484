//! Host/guest boundary core for a sandboxed reconciler: a typed wire codec
//! for values crossing a memory-isolation boundary, a handle-based resource
//! table with exactly-once release, the capability surface built on it, the
//! guest invocation contract, and the reconciliation scheduler driving
//! repeated invocations.

pub mod errors;
pub mod table;
pub mod resource;
pub mod caps;
pub mod streams;
pub mod lift;
pub mod wire;
pub mod wire_lemmas;
pub mod codec;
pub mod abi;
pub mod num;
pub mod scheduler;
