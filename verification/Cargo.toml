[package]
name = "coharvest_bid_pool"
version = "0.1.0"
edition = "2021"
publish = false

[dependencies]
cosmwasm-std = "=1.5.11"
cosmwasm-schema = "=1.5.11"
cw20 = "=1.1.2"
cw-storage-plus = "=1.2.0"
cw-utils = "=1.0.3"
oraiswap = "=1.0.1"
# not named by any source file: pins the version oraiswap builds with (it fails to compile against later 3.x)
protobuf = "=3.2.0"
thiserror = "=1.0.69"
