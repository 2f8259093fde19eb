[package]
name = "median_filter"
version = "0.1.0"
edition = "2021"
publish = false

[dependencies]
median = "*"
vst = "*"
