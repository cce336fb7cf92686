[package]
name = "ipmi_fan"
version = "0.1.0"
edition = "2021"
publish = false
