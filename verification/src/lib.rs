//! Verified core of a disk-clutter cleaner: which paths may be wiped, which
//! directories a category resolves to, how scans are summarised and how a
//! cleanup run accumulates its outcome.

pub mod categories;
pub mod cleaner;
pub mod paths;
pub mod places;
pub mod safety;
pub mod scanner;
pub mod session;
