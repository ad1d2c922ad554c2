//! What the operations are for: each law speaks of the inputs and the results of
//! the functions themselves.

pub mod boot;
pub mod control;
pub mod counts;
pub mod detection;
pub mod filters;
pub mod guarding;
pub mod reading;
pub mod rules;
pub mod shown;
pub mod state;
pub mod traffic;
pub mod words;
