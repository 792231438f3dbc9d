[package]
name = "midi_matrix"
version = "0.1.0"
edition = "2021"
publish = false

[dependencies]
heapless = "0.7"
usb-device = "0.2"
usbd-midi = "0.2"
rp-pico = "0.8"
cortex-m = "0.7"
cortex-m-rt = "0.7"
embedded-hal = "0.2"
defmt = "0.3"
defmt-rtt = "0.3"
