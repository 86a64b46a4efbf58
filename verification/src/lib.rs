//! Verified core of an AES67/MXL audio bridge and its companion mixer.

pub mod bridge;
pub mod console;
pub mod ids;
pub mod json;
pub mod nmos;
pub mod search;
pub mod single;
pub mod table;
pub mod text;
pub mod uuid;
