[package]
name = "swyh-rs"
version = "1.20.3"
edition = "2021"
publish = false

[dependencies]
cpal = "*"
crossbeam-channel = "0.5"
dialoguer = "*"
ecow = "0.2"
fastrand = "2"
hashbrown = "*"
if-addrs = "*"
itertools = "0.14"
local-ip-address = "*"
log = "0.4"
ureq = "*"

[dev-dependencies]
dasp_sample = "0.11"
