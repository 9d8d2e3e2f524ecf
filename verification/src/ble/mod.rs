//! BLE proximity pairing: the advertisement parser and the AES decryption that
//! identifies a device behind its randomized address.
pub mod decrypt;
pub mod parser;
pub mod scanner;
