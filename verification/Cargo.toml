[package]
name = "ade_workspaces"
version = "0.1.0"
edition = "2021"
publish = false

[dependencies]
anyhow = "1"
chrono = "0.4"
log = "0.4"
regex = "1"
smol = "2"
time = "0.3"
