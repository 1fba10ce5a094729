[package]
name = "celshade"
version = "0.1.0"
edition = "2021"
publish = false

[dependencies]
clap = { version = "4", features = ["derive"] }
image = "0.24"

[dev-dependencies]
palette = "0.7"
