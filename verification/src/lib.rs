//! The decisions behind a batch converter that brings audio files into the formats
//! of telephone systems by way of `ffmpeg`: which files are in the list, which
//! `ffmpeg` is run and with what arguments, which recordings are too long, where
//! the output goes, and what the user is told. The window, the files, the processes
//! and the clock are outside.

pub mod board;
pub mod conversion;
pub mod duration;
pub mod ffmpeg;
pub mod fonts;
pub mod native;
pub mod output;
pub mod paths;
pub mod preset;
pub mod session;
pub mod text;
pub mod timestamp;
