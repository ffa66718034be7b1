[package]
name = "kube_quantity"
version = "0.1.0"
edition = "2021"
publish = false

[dependencies]
rust_decimal = "=1.43.0"
nom = "=7.1.3"
k8s-openapi = { version = "=0.28.0", features = ["latest"] }
