[package]
name = "rsdiff"
version = "0.1.0"
edition = "2021"
publish = false

[dependencies]
byteorder = "*"
clap = "*"
flate2 = "*"
nifti = "*"
