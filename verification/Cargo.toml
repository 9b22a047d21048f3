[package]
name = "connection"
version = "0.1.0"
edition = "2021"
publish = false

[dependencies]
cobs = { version = "*", features = ["alloc"] }
flume = "*"
hostname = "*"
log = "*"
mio = { version = "*", features = ["os-poll", "os-ext", "net"] }
mio-serial = { version = "*", default-features = false }
network-interface = "*"
serialport = { version = "*", default-features = false }
socket2 = { version = "*", features = ["all"] }

[dev-dependencies]
bitvec = "*"
deku = { version = "*", features = ["bits"] }
