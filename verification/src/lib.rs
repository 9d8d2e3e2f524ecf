//! LinuxPods: AirPods battery and control logic.
//!
//! The protocol parsers (Apple Accessory Protocol and BLE proximity pairing),
//! the decryption-based device identification, the key store and the state
//! coordinator are all verified here; the program around them (D-Bus, L2CAP
//! sockets, the tray and the window) drives these functions.
pub mod aap;
pub mod ble;
pub mod bluez;
pub mod indicator;
pub mod keystore;
pub mod mock;
pub mod podstate;
pub mod strmap;
pub mod text;
pub mod ui;
