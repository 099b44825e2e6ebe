//! The verified core of a local telemetry server: the registry of connected
//! clients, the broadcaster's tick, the sampler's bookkeeping, and the
//! rules by which bundled assets are served.

pub mod assets;
pub mod broadcast;
pub mod registry;
pub mod roster;
pub mod sampler;
