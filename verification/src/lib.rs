//! What a dashboard of the hardware shows, computed from the texts of files under
//! `/proc` and `/sys` and from what a few commands print.
//!
//! The library reads nothing itself. A program hands it the texts and the time, and
//! draws the pages that come back.

use vstd::prelude::*;

pub mod cache;
pub mod commands;
pub mod cpu;
pub mod gpu;
pub mod host;
pub mod hwmon;
pub mod keys;
pub mod layout;
pub mod memory;
pub mod names;
pub mod net;
pub mod number;
pub mod page;
pub mod readings;
pub mod sampler;
pub mod table;
pub mod text;
pub mod ui;
pub mod updates;
pub mod wifi;

verus! {

} // verus!
