[package]
name = "raytracer"
version = "0.1.0"
edition = "2021"
publish = false

[dependencies]
cgmath = "0.16"
clap = "2"
image = "0.19"
log = "0.4"
noise = "0.5"
num_cpus = "1"
rand = "0.4"
stderrlog = "0.4"
