//! Conversion of pkg-config documents into Common Package Specification
//! packages: the document grammar, the resolution of library names to
//! artifacts, the package model with its validation, and the mapping between
//! the two.

pub mod cps;
pub mod generate_from_pkg_config;
pub mod lib_search;
pub mod pattern;
pub mod pkg_config;
pub mod table;
pub mod text;
