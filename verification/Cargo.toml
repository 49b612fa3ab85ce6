[package]
name = "takzero"
version = "0.1.0"
edition = "2021"
publish = false

[dependencies]
arrayvec = "0.7"
fast-tak = "*"
float-ord = "0.3"
log = "0.4"
ordered-float = "*"
rand = "0.8"
rand_chacha = "0.3"
rand_distr = "0.4"
tch = "*"
thiserror = "*"
