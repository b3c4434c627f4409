[package]
name = "optdiff"
version = "0.1.0"
edition = "2021"
publish = false

[dependencies]
clap = { version = "4", features = ["derive", "env"] }
color-eyre = "0.6"
color-print = "0.3"
cpp_demangle = "0.4"
is-terminal = "0.4"
itertools = "0.13"
memchr = "2"
pager = "0.16"
regex = "1"
similar = "2"
thiserror = "1"
which = "6"
