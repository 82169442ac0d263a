[package]
name = "mopper"
version = "0.1.0"
edition = "2021"
publish = false

[dependencies]
iri-string = "=0.7.14"
pct-str = "=2.0.0"
crossbeam-channel = "=0.5.17"
csv = "=1.4.0"
log = "=0.4.34"
stderrlog = "=0.6.0"
clap = { version = "=4.6.7", features = ["derive"] }
serde = { version = "=1.0.229", features = ["derive"] }
serde_json = "=1.0.154"
