[package]
name = "rdfless"
version = "0.1.0"
edition = "2021"
publish = false

[dependencies]
oxttl = { version = "=0.2.4", features = ["rdf-12"] }
oxrdf = { version = "=0.3.4", features = ["rdf-12"] }
colored = "=3.1.1"
terminal_size = "=0.4.4"
termbg = "=0.6.2"
anyhow = "=1.0.104"
clap = { version = "=4.6.7", features = ["derive"] }
dirs = "=7.0.0"
minus = { version = "=5.8.0", features = ["static_output"] }
serde = { version = "=1.0.229", features = ["derive"] }
toml = "=1.1.7"
