//! Core of an ab-initio molecular dynamics driver: the geometry-log grammar,
//! the species table, frozen-atom range expressions, report headers and the
//! step schedule with its checkpoint/restart protocol.

pub mod constraint;
pub mod geometry;
pub mod output;
pub mod pattern;
pub mod reports;
pub mod schedule;
pub mod species;
pub mod text;
