[package]
name = "uvm"
version = "0.1.0"
edition = "2021"
publish = false

[dependencies]
semver = "=1.0.28"
scraper = "=0.27.0"
serde_json = "=1.0.151"
toml = "=1.1.7"
md-5 = "=0.11.0"
sha2 = "=0.11.0"
reqwest = "=0.13.5"
tokio = { version = "=1.53.2", features = ["rt"] }
flate2 = "=1.1.10"
tar = "=0.4.46"
zip = "=8.6.0"
sevenz-rust = "=0.6.1"
argh = "=0.1.19"
colored = "=3.1.1"
directories = "=6.0.0"
