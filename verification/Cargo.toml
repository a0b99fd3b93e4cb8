[package]
name = "kubewatch_desktop"
version = "0.1.0"
edition = "2021"
publish = false

[dependencies]
egui = "=0.36.2"
egui_extras = "=0.36.2"
chrono = "=0.4.45"
serde = "=1.0.229"
serde_yaml_ng = "=0.10.0"
serde_json = "=1.0.154"
getrandom = "=0.4.3"
uuid = { version = "=1.29.0", features = ["v4"] }
dirs = "=7.0.0"
