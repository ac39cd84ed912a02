//! Transactional planning, verification and command generation for LVM2
//! provisioning: the verified core of `lvq`.

pub mod text;
pub mod types;
pub mod units;
pub mod request;
pub mod state;
pub mod checks;
pub mod planner;
pub mod commands;
pub mod probes;
pub mod reports;
pub mod cli;
