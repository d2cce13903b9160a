[package]
name = "chip8rtic"
version = "0.1.0"
edition = "2021"
publish = false

[dependencies]
f3 = "=0.6.1"
stm32f3xx-hal = { version = "=0.5.0", features = ["stm32f303xc"] }
cortex-m-rtic = "=0.5.9"
rtt-target = { version = "=0.2.2", features = ["cortex-m"] }
panic-halt = "=0.2.0"
