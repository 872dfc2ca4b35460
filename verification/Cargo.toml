[package]
name = "szkdcm"
version = "0.1.0"
edition = "2021"
publish = false

[dependencies]
anyhow = "1"
clap = { version = "4", features = ["derive"] }
clap_complete = "4"
csv = "1"
dicom-core = "*"
dicom-object = "*"
env_logger = "*"
log = "0.4"
rayon = "1"
