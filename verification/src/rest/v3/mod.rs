//! The older list endpoints (v2 and v3), which clients sync from by update
//! time.

pub mod sync;
