//! The station side of an HF data modem.

pub mod bounds;
pub mod figures;
pub mod json;
pub mod keeping;
pub mod profile;
pub mod ptt;
pub mod reading;
pub mod record;
pub mod regulatory;
pub mod replay;
pub mod sessions;
pub mod settings;
pub mod sim;
pub mod spectrum;
pub mod station;
pub mod text;
