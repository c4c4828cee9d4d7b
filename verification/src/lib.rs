//! Bundles script fragments into the code section of a cartridge container.

pub mod bytes;
pub mod error;
pub mod fragments;
pub mod markers;
pub mod names;
pub mod output;
pub mod rebuild;
pub mod search;
pub mod splice;
pub mod watch;
