[package]
name = "svgdx_pandoc"
version = "0.1.0"
edition = "2021"
publish = false

[dependencies]
svgdx = "*"
tempfile = "*"
serde_json = "*"
