[package]
name = "m_o"
version = "0.1.0"
edition = "2021"
publish = false

[dependencies]
nom = "=5.1.3"
pretty = "=0.6.0"
structopt = "=0.3.26"
termion = "=1.5.6"
