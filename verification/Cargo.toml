[package]
name = "nydus_dedup"
version = "0.1.0"
edition = "2021"
publish = false

[dependencies]
gix-attributes = "*"
crc = "*"
versionize = "*"
dbs-snapshot = "*"
