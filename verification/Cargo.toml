[package]
name = "spor"
version = "0.1.0"
edition = "2021"
publish = false

[dependencies]
diff = "0.1"
docopt = "1"
encoding = "0.2"
exit-code = "1"
glob = "0.3"
log = "0.4"
serde = { version = "1", features = ["derive"] }
serde_json = "1"
serde_yaml = "0.8"
simple_logger = "1"
uuid = { version = "*", features = ["v4"] }
