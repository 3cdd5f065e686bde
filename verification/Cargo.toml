[package]
name = "async_std"
version = "0.1.0"
edition = "2021"
publish = false

[dependencies]
memchr = "=2.8.3"
crossbeam-deque = "=0.8.8"
mio = "=0.6.23"
mio-uds = "0.6"
slab = "=0.4.12"
futures = "=0.3.34"
futures-io = "=0.3.34"
futures-core = "=0.3.34"
futures-timer = "=3.0.4"
pin-utils = "=0.1.1"
once_cell = "=1.21.4"
lazy_static = "=1.5.1"
num_cpus = "=1.17.0"
crossbeam-channel = "=0.5.17"
crossbeam-utils = "=0.8.23"
cfg-if = "=1.0.5"
libc = "=0.2.191"
