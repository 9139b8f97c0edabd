//! Change streaming and local version bookkeeping for a replicated row store.

pub mod change;
pub mod chunker;
pub mod registrar;
