[package]
name = "virtual_hosts"
version = "0.1.0"
edition = "2021"
publish = false

[dependencies]
http = "*"
log = "*"
structopt = "0.3"
async-trait = "*"
