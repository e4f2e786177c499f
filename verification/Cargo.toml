[package]
name = "spectrum_reader"
version = "0.1.0"
edition = "2021"
publish = false

[dependencies]
rand = "=0.10.3"
midly = "=0.5.3"
symphonia = "=0.5.5"
cqt-rs = "=0.2.1"
plotters = "=0.3.7"
