//! A voice assistant: it captures what the microphone hears, finds the speech in
//! it, has a recogniser put the speech into words, and types the words into the
//! window that has the focus.
//!
//! This library holds the decisions and the data of all that.  What touches the
//! audio system, the recogniser, the keyboard or a clock is done outside: a session
//! is told what happened and answers with what to do next.  So is floating-point
//! arithmetic; samples are carried as the bit patterns of single-precision numbers,
//! and where numbers are only compared, [`pattern`] does so on their patterns.
//!
//! - [`capture`] opens the device and takes packets, [`format`] reads the device's
//!   format, and [`convert`] takes the samples out of a packet.
//! - [`ring`] queues samples between threads.
//! - [`pipeline`] takes a block of samples through mixing, [`resample`], [`agc`] and
//!   [`vad`].
//! - [`engine`] ties these together, and [`phrase`] collects what is said.
//! - [`model`] loads the recogniser and runs it, and [`text`] puts its words
//!   together, which [`keyboard`] has typed.
//! - [`cpu`] sets up the processor for the arithmetic.
pub mod agc;
pub mod capture;
pub mod convert;
pub mod cpu;
pub mod engine;
pub mod format;
pub mod keyboard;
pub mod model;
pub mod pattern;
pub mod phrase;
pub mod pipeline;
pub mod resample;
pub mod ring;
pub mod text;
pub mod vad;
