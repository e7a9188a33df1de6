//! The logic behind the window: device records, application state, the
//! device picker and the window's own decisions.

pub mod device_list;
pub mod device_selector;
pub mod state;
pub mod window;

pub use device_selector::{Category, Device};
