[package]
name = "truck_router"
version = "0.1.0"
edition = "2021"
publish = false

[dependencies]
ch-router = "*"
kd-tree = "*"
typenum = "*"
