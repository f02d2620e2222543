[package]
name = "amdgpu_top_nvitop"
version = "0.1.0"
edition = "2021"
publish = false

[dependencies]
crossterm = "0.28"
libamdgpu_top = "*"
ratatui = "0.29"
