//! Batch video download planning: size budgets, bitrate planning, re-encode
//! decisions and task scheduling rules.
pub mod text;
pub mod size;
pub mod planner;
pub mod probe;
pub mod reencode;
pub mod tasks;
pub mod driver;
pub mod cookies;
