[package]
name = "openrailwaymap_exporter"
version = "0.1.0"
edition = "2021"
publish = false

[dependencies]
petgraph = "=0.6.5"
fixedbitset = "=0.4.2"
geo = "=0.28.0"
geoutils = "=0.5.1"
serde = { version = "=1.0.229", features = ["derive"] }
serde_json = "=1.0.154"
rand = "=0.8.8"
rurel = "=0.5.1"
uom = "=0.34.0"
anyhow = "=1.0.104"
async-trait = "=0.1.92"
reqwest = { version = "=0.11.27", default-features = false, features = ["json", "rustls-tls"] }
tokio = { version = "=1.54.1", features = ["rt-multi-thread", "macros"] }
structopt = "=0.3.26"
