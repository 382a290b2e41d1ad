//! Statistics over a scanned tree and over the disks of the machine.

pub mod save_plan;
pub mod saved_records;
pub mod statistics_laws;
pub mod statistics_service;
pub mod system_info_service;
