//! Conversion of text into alternating case ("HeLlO"), in a simple mode and in an
//! advanced mode that keeps visually ambiguous letters in a fixed case.
pub mod case_map;
pub mod letters;
pub mod alternation;
pub mod case_convert;
pub mod laws;
pub mod cli;
