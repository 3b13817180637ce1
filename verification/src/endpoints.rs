//! The outbound endpoints the helpers are fetched from.

pub mod ddragon;
pub mod ugg;

pub use ddragon::DDragonEndpoint;
pub use ugg::UggEndpoint;
