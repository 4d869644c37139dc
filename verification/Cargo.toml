[package]
name = "vap_skill_register"
version = "0.1.0"
edition = "2021"
publish = false

[dependencies]
coap = "*"
coap-lite = "*"
embedded-nal = "*"
fluent-langneg = "*"
futures = "*"
libmdns = "*"
log = "*"
no-std-net = "*"
rmp-serde = "*"
serde = { version = "*", features = ["derive"] }
tokio = { version = "*", features = ["rt", "rt-multi-thread", "time", "sync", "macros"] }
toml = "*"
unic-langid = "*"
