pub mod address;
pub mod cell;
pub mod codec;
pub mod measurement;
pub mod mqtt_handler;
pub mod numerical;
