//! Live-data aggregation and selection-stability engine of the iceray
//! introspection dashboard.
//!
//! The dashboard receives periodic snapshots of a shared-memory middleware's
//! state (memory pools, processes, ports) and folds them into bounded
//! histories and ordered lookup tables, while keeping the user's current
//! selection pinned to the same logical row as the tables change shape.

pub mod app;
pub mod cursor;
pub mod event;
pub mod history;
pub mod introspection;
pub mod memory;
pub mod order;
pub mod params;
pub mod process;
pub mod service;
pub mod table;
pub mod types;
