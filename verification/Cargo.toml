[package]
name = "ws2812_core"
version = "0.1.0"
edition = "2021"
publish = false

[dependencies]
critical-section = "=1.2.0"
defmt = "=0.3.101"
defmt-rtt = "=0.4.2"
embassy-executor = { version = "=0.3.3", features = ["arch-riscv32", "executor-thread"] }
embassy-time = "=0.1.5"
embedded-hal = "=0.2.7"
embedded-hal-async = "=1.0.0"
nb = "=1.1.0"
static_cell = "=2.1.1"
