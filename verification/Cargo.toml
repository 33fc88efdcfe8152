[package]
name = "libhupa"
version = "0.1.0"
edition = "2021"
publish = false

[dependencies]
json = "=0.12.4"
fs_extra = "=1.3.0"
app_dirs = "=1.2.1"
utime = "=0.3.3"
libc = "=0.2.190"
