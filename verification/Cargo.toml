[package]
name = "break_infinity_extended"
version = "0.1.0"
edition = "2021"
publish = false

[dependencies]
break_infinity = "*"
opimps = "*"
serde = { version = "1", features = ["derive"] }
