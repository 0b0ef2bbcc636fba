[package]
name = "espeaker"
version = "0.1.0"
edition = "2021"
publish = false

[dependencies]
heapless = { version = "0.8", features = ["serde"] }
serde = { version = "1", default-features = false, features = ["derive"] }
micromath = "2"
static_cell = "2"
defmt = "*"
embassy-executor = "*"
embassy-futures = "*"
embassy-net = { version = "*", features = ["tcp", "udp", "dns", "dhcpv4", "proto-ipv4", "medium-ethernet"] }
embassy-sync = "*"
embassy-time = "*"
embedded-io-async = "*"
embedded-storage = "*"
edge-dhcp = "*"
edge-nal = "*"
edge-nal-embassy = "*"
rust-mqtt = "*"
es8311 = "*"
esp-alloc = "*"
esp-backtrace = "*"
esp-bootloader-esp-idf = "*"
esp-hal = "*"
esp-println = "*"
esp-radio = "*"
esp-rtos = "*"
esp-storage = "*"
