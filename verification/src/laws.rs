//! What holds of the library as a whole.
pub mod again;
pub mod answers;
pub mod backup;
pub mod cleanup;
pub mod frame;
pub mod identity;
pub mod import;
pub mod imported;
pub mod location;
pub mod official;
pub mod outside;
pub mod patch;
pub mod profile;
pub mod refusals;
pub mod registry;
pub mod round_trip;
pub mod routes;
pub mod selection;
pub mod switch;
pub mod texts;
pub mod values;
pub mod views;
