//! Verified core of a bridge that exposes PF8 archives to a managed host:
//! the entry-table checks that decide whether a container is sound, the
//! JSON listing of its entries, the glob filter over entry paths, and the
//! decisions that the progress sink makes at each checkpoint of a run.

pub mod error;
pub mod table;
pub mod listing;
pub mod protocol;
pub mod pattern;
