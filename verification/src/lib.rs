//! Generation of protobuf definitions from C# type dumps.

pub mod case;
pub mod cli;
pub mod decode;
pub mod modules;
pub mod names;
pub mod parser;
pub mod protobuf;
pub mod syntax;
pub mod text;
pub mod vecs;
