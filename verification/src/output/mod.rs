//! The remote side: the calendar and the contacts directory.

pub mod gauth;
pub mod gcal;
pub mod gppl;
