//! Link rewriting and destination-link injection over a PDF object graph.
//!
//! A document is held as plain values: the objects of [`object`], gathered
//! in the graph of [`graph`]. Reading and writing files is left to the
//! program that uses the library, and so is all arithmetic on real numbers,
//! which the library holds as bit patterns.
//!
//! Every operation is stated over the mathematical view of these values:
//!
//! - [`text`] decodes text strings, byte-order mark first;
//! - [`pages`] numbers the pages;
//! - [`nametree`] flattens name trees and number trees;
//! - [`destination`] resolves named destinations;
//! - [`annotation`] lists the link annotations of the pages;
//! - [`link`] rewrites the targets of link annotations;
//! - [`overlay`] and [`inject`] mark destinations with new annotations;
//! - [`metadata`] and [`digest`] read descriptive data and compute checksums;
//! - [`document`] ties them together.

pub mod annotation;
pub mod destination;
pub mod digest;
pub mod document;
pub mod error;
pub mod graph;
pub mod inject;
pub mod link;
pub mod metadata;
pub mod names;
pub mod nametree;
pub mod object;
pub mod overlay;
pub mod pages;
pub mod text;
