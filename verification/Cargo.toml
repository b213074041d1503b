[package]
name = "juce_daito"
version = "0.1.0"
edition = "2021"
publish = false

[dependencies]
cpal = "0.15"
crossbeam-channel = "0.5"
egui = "0.31"
hound = "3.5"
log = "0.4"
midir = "0.10"
num-complex = "0.4"
realfft = "3"
symphonia = "0.5"
