[package]
name = "geo_proc"
version = "0.1.0"
edition = "2021"
publish = false

[dependencies]
cgmath = "*"
tobj = "*"
wavefront_obj = "*"
