//! The core of an audio spectrum display: capture, analysis and composition.
//!
//! * [`introspect`] keeps the newest samples of every channel of an interleaved stream.
//! * [`fft`] holds snapshots of channels and the spectra made of them.
//! * [`compositor`] blends the spectra of two window lengths and smooths them over time.
//! * [`numtools`] and [`padding`] are the helpers that the three share.
//! * [`dsp`] runs signals through pipelines of processing steps.

pub mod compositor;
pub mod dsp;
pub mod fft;
pub mod introspect;
pub mod numtools;
pub mod padding;
