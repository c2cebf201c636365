//! Driving a WS2812 LED from peripherals that were not made for it.
//!
//! A colour becomes a [`frame::Frame`] of 24 data bits and a reset marker.
//! The frame is rendered for one of two kinds of output: as pulse codes for
//! a pulse generator ([`pulse`]) or as bytes for a serial output that
//! emulates the waveform ([`serial`]). What is rendered decodes back to the
//! colour, and every rendering ends in a low level of at least the reset
//! period ([`timing`]).
//!
//! The hardware stays outside: [`transport`] and [`sequencer`] are state
//! machines that say what a driver has to do next, given how the last step
//! went. [`sampling`] holds the arithmetic of an oversampled analog input.

pub mod bit;
pub mod color;
pub mod frame;
pub mod pulse;
pub mod sampling;
pub mod sequencer;
pub mod serial;
pub mod timing;
pub mod transport;
