[package]
name = "loader_graph"
version = "0.1.0"
edition = "2021"
publish = false

[dependencies]
petgraph = "0.5.1"
bcs = "0.1"
move-core-types = "0.0.3"
proptest = "1"
serde = "1"
