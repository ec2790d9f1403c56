//! `oxide` scans a directory tree of audio files, takes a Chromaprint fingerprint of each, and
//! stores it in the file's tags.
//!
//! This library holds what is decided and computed on the way. Reading and writing files,
//! demuxing and decoding, and running the external decoder are left to the program around it,
//! which hands in what it has read and carries out what it is told.
//!
//! - [`cli`]: what the program is asked to do.
//! - [`listing`], [`walk`]: in which order a directory tree is worked through.
//! - [`media`]: which files are audio files.
//! - [`job`]: the steps of the work on one file.
//! - [`pcm`], [`capture`]: from decoded audio to a fingerprint.
//! - [`tags`]: finding a fingerprint in a file's tags, and writing one.
//! - [`stats`]: what a run did, in numbers.
//! - [`runs`]: what holds of whole runs.
//! - [`chroma`]: what is relied on of the fingerprinter.
//! - [`text`]: plain text.

pub mod capture;
pub mod chroma;
pub mod cli;
pub mod job;
pub mod listing;
pub mod media;
pub mod pcm;
pub mod runs;
pub mod stats;
pub mod tags;
pub mod text;
pub mod walk;
