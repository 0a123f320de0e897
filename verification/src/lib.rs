//! Unit handling of a BFT consensus node.

pub mod actions;
pub mod effect_laws;
pub mod faults;
pub mod life;
pub mod messages;
pub mod model;
pub mod nodes;
pub mod request_laws;
pub mod run;
pub mod run_laws;
pub mod runway;
pub mod skeleton;
pub mod start_laws;
pub mod step_laws;
pub mod store;
pub mod traits;
pub mod unit_laws;
pub mod units;
