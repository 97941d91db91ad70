//! Finding tracks in the Beatport catalogue and describing them for tagging.
//!
//! The library decides what to ask the service for and what to make of its replies; it sends
//! nothing itself. Everything in it is verified: the contracts say what each function returns,
//! and the functions whose names begin with `law_` state what holds of the library as a whole.
pub mod album;
pub mod artists;
pub mod builder;
pub mod catalog;
pub mod distinct;
pub mod finder;
pub mod matching;
pub mod mix;
pub mod number;
pub mod outside;
pub mod session;
pub mod text;
pub mod title;
pub mod track;

pub use crate::builder::BeatportBuilder;
pub use crate::catalog::{
    BeatportGeneric, BeatportImage, BeatportOAuth, BeatportRelease, BeatportTrack,
    BeatportTrackResults,
};
pub use crate::mix::MixType;
pub use crate::session::Beatport;
