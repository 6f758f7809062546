[package]
name = "pdflib"
version = "0.1.0"
edition = "2021"
publish = false

[dependencies]
flate2 = "1"
log = "0.4"
stderrlog = "0.6"
