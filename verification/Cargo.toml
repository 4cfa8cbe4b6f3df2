[package]
name = "creek"
version = "0.1.0"
edition = "2021"
publish = false

[dependencies]
rtrb = "0.3"
byte-slice-cast = "1"
symphonia = "0.5"
log = "0.4"
