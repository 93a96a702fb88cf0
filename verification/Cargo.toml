[package]
name = "nvdb2osm"
version = "0.1.0"
edition = "2021"
publish = false

[dependencies]
pbf-craft = "*"
