[package]
name = "near_assert_require"
version = "0.1.0"
edition = "2021"
publish = false

[dependencies]
clippy_utils = "*"
