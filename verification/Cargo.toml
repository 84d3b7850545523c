[package]
name = "live_rig"
version = "0.1.0"
edition = "2021"
publish = false

[dependencies]
arrayvec = "0.7"
midly = "0.5"
crossbeam = "0.8"
audrey = "0.3"
dasp = { version = "0.11", features = ["all"] }
dsp-chain = "0.13"
midir = "0.7"
nannou_audio = "0.18"
notify = "4.0"
serde = { version = "1", features = ["derive"] }
serde_derive = "1"
toml = "0.5"
vst = "0.2"
