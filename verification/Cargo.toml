[package]
name = "pdnsd"
version = "0.1.0"
edition = "2021"
publish = false

[dependencies]
arrayvec = "=0.7.8"
byteorder = "=1.5.0"
smallvec = "=1.16.4"
slab = "=0.1.3"
time = "=0.1.45"
mio = "=0.6.23"
log = "=0.4.34"
env_logger = "=0.11.11"
getopts = "=0.2.24"
libc = "=0.2.191"
chan = "=0.1.23"
chan-signal = "=0.3.3"
