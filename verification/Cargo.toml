[package]
name = "mirror_pool"
version = "0.1.0"
edition = "2021"
publish = false

[dependencies]
light-poseidon = "=0.4.1"
ark-bn254 = "=0.5.0"
ark-ff = "=0.5.0"
ark-serialize = "=0.5.0"
ark-std = "=0.5.0"
ark-groth16 = "=0.5.0"
ark-r1cs-std = "=0.5.0"
ark-relations = "=0.5.1"
ark-snark = "=0.5.1"
groth16-solana = "=0.3.1"
solana-poseidon = "=5.0.1"
solana-pubkey = { version = "=4.4.0", features = ["curve25519"] }
solana-hash = "=4.7.0"
solana-instruction = "=4.0.0"
solana-keypair = "=4.0.0"
solana-signer = "=4.0.0"
solana-message = "=6.0.0"
solana-transaction = { version = "=6.0.0", features = ["wincode"] }
solana-compute-budget-interface = "=3.1.0"
sha2 = "=0.10.9"
hex = "=0.4.3"
serde = { version = "=1.0.229", features = ["derive"] }
serde_json = "=1.0.154"
clap = { version = "=4.6.7", features = ["derive"] }
anyhow = "=1.0.104"
rand = "=0.9.5"
getrandom = "=0.3.4"
