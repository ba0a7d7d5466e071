//! The logic of FxTrumpet, an audio hub that lives in the notification area.
//!
//! The library decides; it does not touch the machine. What Windows, the disk
//! or the enhancement engine answer comes in as plain values, and what is to be
//! done next goes out as plain values, each with a contract that says exactly
//! which. The parts:
//!
//! - [`device`], [`endpoint`], [`session`], [`process`]: what the system
//!   reports, made sense of;
//! - [`router`], [`perapp`], [`routing`]: which application plays where, and
//!   how the default output is taken over and given back;
//! - [`engine`], [`graph`], [`applier`], [`audio`], with [`ring`] and
//!   [`samples`] below them: the audio path;
//! - [`preset`], [`config`], [`autostart`], [`driver`]: presets, settings, the
//!   start at logon and the virtual sound card;
//! - [`app`], [`startup`], [`cli`], [`i18n`], [`report`]: the application, its
//!   start, its command line, its words and its reports.
//!
//! Paths are texts, read by the rules of Windows; see [`path`].
//!
//! Levels, gains and samples are the bit patterns of `f32` values; see
//! [`float`].

pub mod app;
pub mod applier;
pub mod audio;
pub mod autostart;
pub mod cli;
pub mod config;
pub mod device;
pub mod driver;
pub mod endpoint;
pub mod engine;
pub mod ffi;
pub mod float;
pub mod graph;
pub mod i18n;
pub mod path;
pub mod perapp;
pub mod preset;
pub mod process;
pub mod report;
pub mod ring;
pub mod router;
pub mod routing;
pub mod samples;
pub mod session;
pub mod sort;
pub mod startup;
pub mod strings;
pub mod text;
pub mod wide;
