[package]
name = "testbed"
version = "0.1.0"
edition = "2021"
publish = false

[dependencies]
console = "0.15"
ctrlc = "3"
indexmap = "2"
indicatif = "0.17"
memchr = "2"
minijinja = { version = "2", features = ["loader"] }
pest = "2"
pest_derive = "2"
ron = "0.8"
serde = { version = "1", features = ["derive"] }
