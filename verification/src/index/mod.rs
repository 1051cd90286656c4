//! Index maintenance.

pub mod bitmap;
pub mod label_index;
pub mod pending_updates;
pub mod vector_slots;
