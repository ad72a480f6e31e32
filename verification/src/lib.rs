pub mod address;
pub mod asset_proof;
pub mod blockchain;
pub mod blockchain_validator;
pub mod epoch_circuit;
pub mod error;
pub mod fiat_transform;
pub mod field;
pub mod hash;
pub mod merkle;
pub mod network;
pub mod org;
pub mod run_config;
pub mod serial_number;
pub mod transaction;
pub mod utils;
