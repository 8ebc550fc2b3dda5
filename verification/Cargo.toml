[package]
name = "somnia"
version = "0.1.0"
edition = "2021"
publish = false

[dependencies]
crossbeam-queue = "=0.3.14"
multiboot2 = "=0.28.0"
spin = "=0.12.3"
x86 = "=0.52.0"
xmas-elf = "=0.10.0"
