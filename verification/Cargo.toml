[package]
name = "glyph-cell"
version = "0.1.0"
edition = "2021"
publish = false

[dependencies]
embedded-graphics = "0.8"
embedded-graphics-core = "0.4"
freetype = "0.7"
serde = { version = "1", features = ["derive"] }
syn = { version = "2", features = ["full"] }
quote = "1"
proc-macro2 = "1"
windows-sys = { version = "0.59", features = ["Win32_UI_Controls_Dialogs", "Win32_Foundation"] }
