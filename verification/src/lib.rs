//! A disk usage analyzer: scanned directory trees, their sizes, sorting,
//! filtering, statistics by file category, and the state machine of the
//! terminal interface that browses them.

pub mod models;
pub mod size_calculator;
pub mod text;
pub mod sort_service;
pub mod filter_service;
pub mod stat_services;
pub mod scanner_services;
pub mod tui;
