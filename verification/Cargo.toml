[package]
name = "inline_c"
version = "0.1.0"
edition = "2021"
publish = false

[dependencies]
cc = "*"
tempfile = "*"
target-lexicon = "*"
assert_cmd = "*"
predicates = "*"
proc-macro2 = "*"
