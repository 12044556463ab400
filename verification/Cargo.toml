[package]
name = "frame_filter"
version = "0.1.0"
edition = "2021"
publish = false

[dependencies]
rscam = "0.5.5"
