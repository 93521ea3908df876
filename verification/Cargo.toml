[package]
name = "links"
version = "0.1.0"
edition = "2021"
publish = false

[dependencies]
chrono = "*"
clap = "*"
diesel = { version = "*", features = ["postgres", "r2d2"] }
dotenv = "*"
fnv = "*"
