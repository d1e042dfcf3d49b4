[package]
name = "my_mio"
version = "0.1.0"
edition = "2021"
publish = false

[dependencies]
libc = "0.2"
slab = "0.4"
bytes = "1"
