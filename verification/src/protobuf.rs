//! The protobuf side: messages, enums, packages and their builders.

pub mod builders;
pub mod sim_order;
pub mod message;
pub mod package;
pub mod proto_enum;
pub mod render;
pub mod resolve;
pub mod type_path;
