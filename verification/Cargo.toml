[package]
name = "mainnet_replay"
version = "0.1.0"
edition = "2021"
publish = false

[dependencies]
base64 = "=0.22.1"
bincode = "=1.3.3"
serde = { version = "1", features = ["derive"] }
serde_json = "1"
solana-account = "=4.3.2"
solana-clock = { version = "=3.1.1", features = ["serde"] }
solana-compute-budget = { version = "=4.2.2", features = ["agave-unstable-api"] }
solana-epoch-schedule = { version = "=3.2.0", features = ["serde"] }
solana-hash = "=4.5.0"
solana-instruction = "=3.4.1"
solana-instructions-sysvar = "=4.0.0"
solana-message = "=4.4.1"
solana-program-runtime = { version = "=4.2.2", features = ["agave-unstable-api", "dev-context-only-utils"] }
solana-pubkey = "=4.2.1"
solana-rent = { version = "=4.3.0", features = ["serde"] }
solana-sdk-ids = "=3.1.0"
solana-svm = { version = "=4.2.2", features = ["agave-unstable-api", "conformance"] }
solana-svm-feature-set = { version = "=4.2.2", features = ["agave-unstable-api"] }
solana-svm-log-collector = { version = "=4.2.2", features = ["agave-unstable-api"] }
solana-svm-timings = { version = "=4.2.2", features = ["agave-unstable-api"] }
solana-svm-transaction = "=4.2.0"
solana-syscalls = { version = "=4.2.2", features = ["agave-unstable-api"] }
solana-transaction-context = { version = "=4.2.2", features = ["agave-unstable-api"] }
