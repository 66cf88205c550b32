[package]
name = "watchexec"
version = "0.1.0"
edition = "2021"
publish = false

[dependencies]
clearscreen = "1"
command-group = "1"
log = "0.4"
nix = "0.22"
notify = "4"
