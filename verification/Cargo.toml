[package]
name = "fldemos"
version = "0.1.0"
edition = "2021"
publish = false

[dependencies]
chrono = "=0.4.45"
regex = "=1.13.1"
json-tools = "=1.1.3"
ttf-parser = "=0.15.2"
fltk = "=1.5.23"
fltk-theme = "=0.7.9"
serde = { version = "=1.0.229", features = ["derive"] }
serde_json = "=1.0.154"
rmp-serde = "=1.3.1"
ureq = { version = "=2.12.1", features = ["json"] }
csv = "=1.4.0"
serde-xml-rs = "=0.8.2"
xlsxwriter = "=0.6.1"
tree-sitter-highlight = "0.20"
tree-sitter-md = "0.1"
tree-sitter-toml = "0.20"

[dev-dependencies]
nom = "=7.1.3"
