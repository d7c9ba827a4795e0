[package]
name = "esm_chunks"
version = "0.1.0"
edition = "2021"
publish = false

[dependencies]
serde_json = "=1.0.151"
rayon = "=1.12.0"
atomic_refcell = "=0.1.14"
swc_common = "=26.0.0"
swc_html = "=38.0.0"
swc_html_minifier = "=63.0.0"
