[package]
name = "proto_gen"
version = "0.1.0"
edition = "2021"
publish = false

[dependencies]
convert_case = "=0.6.0"
regex = "=1.13.1"
pest = "=2.9.6"
pest_derive = "=2.9.6"
clap = { version = "=4.6.7", features = ["derive"] }
phf_codegen = "0.11"
prost-types = "0.13"
