[package]
name = "native-terminal"
version = "0.1.0"
edition = "2021"
publish = false

[dependencies]
alacritty_terminal = "=0.26.0"
bytemuck = "=1.25.2"
glyphon = "=0.11.0"
log = "=0.4.35"
objc2 = "0.6"
objc2-app-kit = "0.3"
objc2-foundation = "0.3"
pollster = "=0.4.0"
raw-window-handle = "=0.6.2"
wgpu = "=29.0.4"
