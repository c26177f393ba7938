[package]
name = "storage_event_monitor"
version = "0.1.0"
edition = "2021"
publish = false

[dependencies]
libc = "*"
libudev = "*"
sdjournal = "*"
