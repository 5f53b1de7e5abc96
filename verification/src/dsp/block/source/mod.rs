//! Signal sources.
pub mod rtlsdr;
