[package]
name = "sensor_node"
version = "0.1.0"
edition = "2021"
publish = false

[dependencies]
heapless = { version = "=0.6.1", features = ["ufmt-impl"] }
embedded-hal = "=0.2.7"
nb = "=0.1.3"
cortex-m = "=0.6.7"
cortex-m-rt = "=0.6.15"
stm32f4xx-hal = { version = "=0.8.3", features = ["rt", "stm32f411"] }
shared-bus = "=0.2.5"
ssd1306 = "=0.5.2"
embedded-graphics = "=0.6.2"
profont = "=0.4.0"
tinybmp = { version = "=0.2.3", features = ["graphics"] }
ufmt = "=0.1.2"
lazy_static = { version = "=1.5.1", features = ["spin_no_std"] }
cmim = "=0.2.1"
dht11 = "0.3"
mlx9061x = "=0.1.0"
