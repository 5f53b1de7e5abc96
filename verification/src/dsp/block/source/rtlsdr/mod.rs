//! RTL-SDR dongle.
pub mod usb;
pub use self::usb::USB;
