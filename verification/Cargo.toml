[package]
name = "topic_model"
version = "0.1.0"
edition = "2021"
publish = false

[dependencies]
anyhow = "1"
csv = "1"
ndarray = "0.16"
ndarray-rand = "0.15"
rand_distr = "0.4"
regex = "1"
serde = { version = "1", features = ["derive"] }
serde_json = "1"
stemmer = "*"
sysinfo = "*"
walkdir = "2"
winapi = { version = "0.3", features = ["minwindef", "processthreadsapi", "winnt"] }
