//! Core engine for synchronizing a time-stamped comment stream with video
//! playback: per-session playback windowing, an ordered filter pipeline,
//! an emission governor (coalesce then budget), runtime profiles, and a
//! single-slot undo ledger for filter mutations.
//!
//! Remote comment retrieval, durable storage and the request/response
//! envelope are collaborators supplied by the embedding program; this crate
//! holds the verified state machines and algorithms they drive.

pub mod controller;
pub mod domain;
pub mod filter;
pub mod governor;
pub mod profile;
pub mod protocol;
pub mod session;
pub mod synth;
pub mod video_id;

pub use controller::AppCore;
pub use controller::CoreError;
pub use domain::CommentEvent;
pub use domain::CommentFetcher;
pub use domain::CommentSource;
pub use filter::FilterEngine;
pub use filter::FilterError;
pub use filter::RegexFilterEntry;
pub use profile::RuntimeProfile;
pub use profile::RuntimeProfileConfig;
pub use session::PlaybackTickSample;
pub use session::Session;
pub use session::cursor_for_position;
pub use synth::generate_synthetic_comments_ramp;
pub use video_id::extract_video_id_from_path;
