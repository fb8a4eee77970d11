[package]
name = "remotestorage_client"
version = "0.1.0"
edition = "2021"
publish = false

[dependencies]
http = "*"
pct-str = "*"
wasm-bindgen = "*"
wasm-bindgen-futures = "*"
js-sys = "*"
web-sys = { version = "*", features = ["Window", "Document", "HtmlDocument", "HtmlElement", "Element", "CssStyleDeclaration", "Request", "RequestInit", "RequestMode", "Response", "Headers", "History", "Location", "Node", "console"] }

[dev-dependencies]
regex = "*"
