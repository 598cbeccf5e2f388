[package]
name = "cluster_gossip"
version = "0.1.0"
edition = "2021"
publish = false

[dependencies]
histogram = "=0.6.9"
num_cpus = "=1.17.0"
serde = { version = "=1.0.229", features = ["derive"] }
serde_json = "=1.0.154"
solana-keypair = "=4.0.0"
solana-pubkey = "=4.4.0"
solana-sha256-hasher = { version = "=3.1.0", features = ["sha2"] }
solana-signature = { version = "=3.6.0", features = ["verify"] }
solana-signer = "=4.0.0"
thiserror = "=2.0.21"
