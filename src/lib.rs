//! An in-memory manager for product requirement documents: records with a
//! status, a priority, a completion percentage and tags, kept in creation
//! order beside an index from identifier to position, with statistics that
//! are rebuilt from the records on demand.

pub mod analytics;
pub mod clock;
pub mod export;
pub mod ident;
pub mod labels;
pub mod manager;
pub mod ranking;
pub mod record;
pub mod text;

pub use analytics::Analytics;
pub use labels::{PRDStatus, Priority};
pub use manager::PRDManager;
pub use record::PRD;
