//! Amateur packet radio on the AX.25 link layer: a byte-exact frame codec,
//! KISS framing for talking to a TNC modem, and a fan-out handle that
//! multicasts received frames to any number of subscribers.

pub mod ext;
pub mod frame;
pub mod kiss;
pub mod strutil;
pub mod tnc;
