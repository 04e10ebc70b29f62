//! Conversion between SubRip and WebVTT subtitle documents.
//!
//! A document is read line by line into [`Cue`]s, each cue is moved in time
//! by a [`Delta`], and the cues are written as a document of the other or
//! the same [`Format`]. [`convert`] does all of it; the parsers and the
//! writers of the two formats are in [`srt`] and [`webvtt`].

pub mod convert;
pub mod cue;
pub mod delta;
pub mod delta_text;
pub mod duration;
pub mod error;
pub mod format;
pub mod lines;
pub mod srt;
pub mod step;
pub mod text;
pub mod webvtt;

pub use convert::{convert, convert_output, Parser};
pub use cue::Cue;
pub use delta::Delta;
pub use delta_text::DeltaSyntax;
pub use duration::Duration;
pub use error::{Error, Reason};
pub use format::{Format, UnknownFormat};
pub use lines::LineNb;
pub use srt::out as srt_out;
pub use srt::{Srt, SrtParser};
pub use webvtt::out as webvtt_out;
pub use webvtt::WebVTTParser;
