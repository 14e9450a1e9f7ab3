//! Conflict-free replicated data types: values that replicas change on
//! their own and reconcile by merging, to the same result whatever the
//! order and number of merges.
//!
//! [`Merge`] is what every such type offers, and [`MergeLaws`] states the
//! laws that make replicas converge. [`HybridLogicalClock`] orders writes
//! across replicas. The containers are [`Max`], [`LWWRegister`], [`GSet`],
//! [`GMap`], [`LWWSet`], [`LWWMap`] and [`TwoPMap`]. [`Task`], [`Document`]
//! and [`Replica`] build a task list on them.

pub mod btree;
pub mod document;
pub mod gmap;
pub mod gset;
pub mod hlc;
pub mod lww;
pub mod lwwmap;
pub mod lwwset;
pub mod max;
pub mod merge;
pub mod replica;
pub mod task;
pub mod twopmap;
pub mod values;

pub use document::Document;
pub use gmap::GMap;
pub use gset::GSet;
pub use hlc::HybridLogicalClock;
pub use hlc::Timestamp;
pub use lww::LWWRegister;
pub use lwwmap::LWWMap;
pub use lwwset::LWWSet;
pub use max::Max;
pub use merge::Merge;
pub use merge::MergeLaws;
pub use replica::Replica;
pub use task::Task;
pub use twopmap::TwoPMap;
