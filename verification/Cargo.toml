[package]
name = "wordle"
version = "0.1.0"
edition = "2021"
publish = false

[dependencies]
rand = "0.8"
rayon = "1"
serde = { version = "1", features = ["derive"] }
serde_json = "1"
colored = "2"
console = "0.15"
atty = "0.2"
text_io = "0.1"
chrono = "0.4"
crossterm = "0.25"
tui = "0.19"
fltk = "1"
