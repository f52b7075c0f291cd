//! The configuration surface of the dashboard.

use crate::types::Pages;
use vstd::prelude::*;

verus! {

/// What the dashboard is started with.
#[derive(Clone, Copy, Debug)]
pub struct Params {
    /// The update interval in milliseconds.
    pub update_interval: u64,
    /// The page to show on startup.
    pub initial_page: Pages,
}

} // verus!
