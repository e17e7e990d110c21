//! Reconciliation of a club's events and members with a remote calendar and
//! a remote contacts directory.

pub mod date;
pub mod executor;
pub mod input;
pub mod lister;
pub mod lookup;
pub mod merge;
pub mod model;
pub mod ordered_map;
pub mod output;
pub mod queue;
pub mod reconcile;
pub mod reconcile_laws;
pub mod text;

pub use model::{DateSelect, Event};
pub use output::gcal::GCal;
pub use output::gppl::GPpl;
