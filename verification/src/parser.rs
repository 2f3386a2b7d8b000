//! Reading the parse tree of a C# type dump into data structures.

pub mod common;
pub mod data_structs;
pub mod file;
pub mod keywords;
pub mod read_members;
pub mod read_types;
