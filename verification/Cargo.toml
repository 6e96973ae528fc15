[package]
name = "print_flat_tree"
version = "0.1.0"
edition = "2021"
publish = false

[dependencies]
flat-tree = "=4.1.0"
structopt = "=0.3.26"
