//! Scheduled, retention-bounded snapshot rotation for filesystem subvolumes.
//!
//! The library holds the decision core: how a snapshot name is derived from
//! an instant and a frequency class, how directory entries are classified
//! back into an inventory, when a class is due for a new snapshot, and which
//! snapshots pruning selects as victims.  All I/O (directory listing, the
//! external snapshot tool, configuration loading) stays outside; callers
//! hand in plain values and execute the returned plan.

pub mod errors;
pub mod freq;
pub mod instant;
pub mod inventory;
pub mod name;
pub mod order;
pub mod plan;
pub mod prune;
