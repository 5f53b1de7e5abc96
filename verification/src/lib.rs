//! Building blocks for a software-defined radio receiver: block interfaces,
//! the sample queue and read planning of an RTL-SDR dongle, a WAVE file sink,
//! the size and bin bookkeeping of a DFT block, and two byte checksums.
pub mod bytesum;
pub mod dsp;
