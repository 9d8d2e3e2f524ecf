//! Apple Accessory Protocol: the packets sent over the L2CAP link and the
//! parsers for what the AirPods send back.
pub mod battery;
pub mod client;
pub mod keys;
pub mod noise;
