[package]
name = "grok"
version = "0.1.0"
edition = "2021"
publish = false

[dependencies]
regex = "=1.13.1"
fnv = "=1.0.7"
itertools = "=0.15.0"
crossterm = "=0.26.1"
pico-args = "=0.5.0"
reedline = "=0.52.1"
flexi_logger = "=0.31.10"
log = "=0.4.35"
