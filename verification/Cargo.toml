[package]
name = "brakes"
version = "0.1.0"
edition = "2021"
publish = false

[dependencies]
actix-web = { version = "4", default-features = false }
futures = "0.3"
futures-util = "0.3"
http = "1"
tower = "0.5"
r2d2 = "0.8"
redis = { version = "*", features = ["r2d2", "cluster"] }
memcache = { version = "*", default-features = false }

[dev-dependencies]
bincode = "1.3"
