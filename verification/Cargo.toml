[package]
name = "kernel_net"
version = "0.1.0"
edition = "2021"
publish = false

[dependencies]
sha2 = "=0.10.9"
ed25519-dalek = "=2.2.0"
bs58 = "=0.5.1"
getrandom = { version = "=0.2.17", features = ["custom"] }
smoltcp = { version = "=0.11.0", default-features = false, features = ["alloc", "medium-ethernet", "proto-ipv4", "socket-tcp", "socket-udp", "socket-dhcpv4"] }
virtio-drivers = "=0.13.0"
spin = "=0.9.9"
lazy_static = "=1.5.1"
x86_64 = { version = "=0.15.5", default-features = false, features = ["instructions"] }
bootloader_api = "=0.11.17"
uart_16550 = "=0.3.2"
wasmi = "=0.31.2"
zerocopy = "=0.8.63"
bitflags = "=2.13.2"
