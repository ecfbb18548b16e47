[package]
name = "alexo-io"
version = "0.1.0"
edition = "2021"
publish = false

[dependencies]
dioxus = { version = "0.7", features = ["router", "fullstack"] }
manganis = "0.7"
js-sys = "0.3"
wasm-bindgen = "0.2"
web-sys = { version = "0.3", features = ["Window", "Document", "Element", "HtmlElement", "NodeList", "Node", "Storage", "MediaQueryList", "DomRect"] }
