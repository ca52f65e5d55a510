[package]
name = "nom_de_plante"
version = "0.1.0"
edition = "2021"
publish = false

[dependencies]
anyhow = "1"
crossterm = "0.28"
wasm-bindgen = "0.2"
web-sys = { version = "0.3", features = ["console", "HtmlCanvasElement", "CanvasRenderingContext2d", "ImageData", "Blob", "HtmlImageElement"] }
