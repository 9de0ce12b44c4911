[package]
name = "rdla"
version = "0.1.0"
edition = "2021"
publish = false

[dependencies]
clap = "2"
toml = "*"
serde = "1"
serde_derive = "1"
ply-rs = "*"
nsi = "*"
tobj = "*"
bytemuck = "*"

[dev-dependencies]
rand_xoshiro = "0.6"
