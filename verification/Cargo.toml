[package]
name = "duke"
version = "0.1.0"
edition = "2021"
publish = false

[dependencies]
pci_types = "=0.10.1"
spin = "=0.9.9"
x86_64 = { version = "=0.15.5", default-features = false, features = ["instructions"] }
bootloader_api = "=0.11.17"
uart_16550 = "=0.6.0"
tock-registers = "=0.9.0"
aarch64-cpu = "=10.0.0"
