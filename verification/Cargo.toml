[package]
name = "brep_tessellation"
version = "0.1.0"
edition = "2021"
publish = false

[dependencies]
rayon = "1"
rustc-hash = "2"
spade = "2"
truck-base = "*"
truck-geotrait = "*"
truck-topology = "*"
