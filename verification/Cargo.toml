[package]
name = "js_string"
version = "0.1.0"
edition = "2021"
publish = false

[dependencies]
boa_gc = "0.19"
boa_interner = "0.19"
fast-float = "0.2"
static_assertions = "1.1"
