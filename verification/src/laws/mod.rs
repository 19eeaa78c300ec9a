//! Laws of the language, proved from the definitions of scanning, building
//! and evaluating.

pub mod building;
pub mod evaluating;
pub mod failures;
pub mod floats;
pub mod language;
pub mod scanning;
pub mod shape;
