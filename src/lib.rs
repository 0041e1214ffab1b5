//! A streaming engine for analog and digital output hardware: per-channel
//! instruction timelines, their compilation against a common stop time,
//! sampling, and the run lifecycle, behind one flat interface.
pub mod channel;
pub mod device;
pub mod error;
pub mod names;
pub mod nidev;
pub mod streamer;
