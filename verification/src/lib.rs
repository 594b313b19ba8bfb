//! Verified core of a personal activity-logging service.
//!
//! The library covers the pieces of the service that carry real logic:
//! a deterministic label-to-color hash, a time-normalization layer for a
//! single fixed time zone (Europe/Oslo), the activity repository with its
//! season-window queries and grouped summaries, and the template filters
//! with their strict value handling.  I/O — the HTTP layer, the SQL store
//! and the template files on disk — stays outside the library and hands
//! plain values in and out.

pub mod color;
pub mod pages;
pub mod store;
pub mod templates;
pub mod text;
pub mod time;
pub mod timefmt;
pub mod zone;
