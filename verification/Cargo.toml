[package]
name = "source_lexer"
version = "0.1.0"
edition = "2021"
publish = false

[dependencies]
voxell_rng = "0.8.0"
voxell_timer = "=1.2.2"
