[package]
name = "expedition"
version = "0.1.0"
edition = "2021"
publish = false

[dependencies]
ecolor = { version = "*", features = ["serde"] }
egui = { version = "*", default-features = false, features = ["serde"] }
itertools = "*"
serde = { version = "*", features = ["derive"] }
termcolor = "*"
