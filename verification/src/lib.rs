//! Railroad lines of a geographic dataset as KML documents.
//!
//! A dataset is a list of sections, each with the name of its line, the
//! name of its operator and a geometry of coordinate chains. The library
//! searches it for lines by a part of a name ([`search`]), reads a choice
//! among the lines that were found ([`selection`]), builds the KML of the
//! chosen lines ([`kml`], on the XML writer of [`xml`]), and decides, line
//! of input by line of input, how a conversation with the user goes on
//! ([`ui`]). Reading the dataset, the terminal and the files that are
//! written are left to the caller; [`io`] says what a reader and a writer of
//! lines are, and holds a pair of them that works in memory.
//!
//! The functions are verified against the contracts that they carry. What
//! is taken on trust are the functions marked `external_body` in [`xml`],
//! which call the XML writer, and the declarations of the types of other
//! libraries that pass through this one.

use vstd::prelude::*;

pub mod error;
pub mod io;
pub mod kml;
pub mod model;
pub mod search;
pub mod selection;
pub mod text;
pub mod ui;
pub mod xml;

pub use error::GeojsonError;
pub use kml::{
    build_document, build_kml_content, generate_filename, generate_kml_body, GeneratedDocument,
};
pub use model::{Crs, Feature, Geo, GeoProperty, Geometry, Property, TrainLine};
pub use search::search_candidates;

verus! {

} // verus!
