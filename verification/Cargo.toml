[package]
name = "marching_rects"
version = "0.1.0"
edition = "2021"
publish = false

[dependencies]
argparse = "*"
image = "*"
