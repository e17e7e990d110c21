//! The source side: the club's site.

pub mod html;
pub mod web;
