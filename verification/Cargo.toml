[package]
name = "simple_file_manager"
version = "1.0.0"
edition = "2021"
publish = false
