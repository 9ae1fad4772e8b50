[package]
name = "rologlyphex"
version = "0.1.0"
edition = "2021"
publish = false

[dependencies]
gtk4 = "0.9"
gdk4 = "0.9"
glib = "0.20"
cairo-rs = "0.20"
x11 = { version = "2.21", features = ["xlib", "xtest"] }
libc = "0.2"
serde = { version = "1", features = ["derive"] }
toml = "0.8"

[dev-dependencies]
toml = "0.8"
