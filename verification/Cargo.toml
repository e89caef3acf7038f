[package]
name = "see"
version = "0.1.0"
edition = "2021"
publish = false

[dependencies]
arborist = "=0.0.5"
arrayref = "=0.3.9"
bonsai = { version = "=0.2.1", default-features = false, features = ["u128"] }
hex = "=0.4.3"
oof = { version = "=0.1.1", features = ["generate"] }
