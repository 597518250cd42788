//! Dotfile tracking: the tracking list, the reading of porcelain status
//! output, diff extraction and the navigation of status entries.

pub mod args;
pub mod command;
pub mod diff;
pub mod listing;
pub mod navigator;
pub mod report;
pub mod status;
pub mod table;
pub mod text;
pub mod tracking;
