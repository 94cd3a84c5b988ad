//! A small library for laying out a bordered, fixed-width text table (a tea
//! infusion log) and for parsing a page-dimension configuration document.

pub mod config;
pub mod table;
pub mod text;
