//! A strict parser for the XYZ molecular coordinate file format: an atom
//! count, a free-form comment, and one element-plus-coordinates line per
//! atom, turned into a validated molecule or a precise, line-numbered error.
pub mod coord;
pub mod count;
pub mod error;
pub mod laws;
pub mod parser;
pub mod text;

pub use coord::Coord;
pub use error::ParseError;
pub use parser::{parse_xyz_str, Atom, Molecule};
