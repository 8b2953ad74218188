[package]
name = "latin_dictionary"
version = "0.1.0"
edition = "2021"
publish = false

[dependencies]
clap = { version = "3", features = ["derive"] }
diesel = { version = "1.4", features = ["postgres", "r2d2"] }
dotenv = "0.15"
regex = "1"
serde = { version = "1", features = ["derive"] }
serde_json = "1"
