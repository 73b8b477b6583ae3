//! Acquiring land-transaction records from a query service that takes one
//! polygon at a time and refuses polygons that are too large.
//!
//! - `geometry` splits a polygon ring in two along the longer axis of its
//!   bounding box; `clip_laws` states what holds of every split.
//! - `controller` decides, for each outcome of a query, what becomes of the
//!   pending units of one feature; `classify` sorts the failures.
//! - `transform` flattens a response document into the rows of `tables`,
//!   numbered by the generator of `ids`; `numbering` and `grouping` state
//!   what holds of the numbers and of the order of the rows.
//! - `json` and `geojson` read the decoded documents.

pub mod classify;
pub mod clip_laws;
pub mod controller;
pub mod geojson;
pub mod geometry;
pub mod grouping;
pub mod ids;
pub mod json;
pub mod numbering;
pub mod tables;
pub mod transform;
