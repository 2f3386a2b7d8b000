//! Classification of C# members and assembly of protobuf messages.

pub mod field;
pub mod message;
pub mod package;
pub mod property;
