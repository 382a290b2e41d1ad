//! What a scan decides about each entry it meets: which paths it leaves out,
//! which names it hides, and the node that stands for an entry.

pub mod scanner;

pub use scanner::{Scanner, EntryKind};
