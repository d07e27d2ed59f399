[package]
name = "rates"
version = "0.1.0"
edition = "2021"
publish = false

[dependencies]
serde_json = "1"
quickxml_to_serde = "*"
reqwest = { version = "*", default-features = false, features = ["blocking"] }
structopt = "0.3"
directories = "*"
chrono = "*"
