[package]
name = "snake_game"
version = "0.1.0"
edition = "2021"
publish = false

[dependencies]
oorandom = "*"
cortex-m = "*"
cortex-m-rt = "*"
stm32f4xx-hal = { version = "*", features = ["stm32f411"] }
