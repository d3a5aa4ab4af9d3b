//! The data model shared by every component: a single comment event and the
//! indicator saying where a session's comments came from.

use vstd::prelude::*;

verus! {

/// One community comment, pinned to a millisecond offset within the video.
/// Immutable after creation.
#[derive(Debug)]
pub struct CommentEvent {
    pub comment_id: String,
    pub at_ms: i64,
    pub user_id: String,
    pub text: String,
}

/// The mathematical value of a `CommentEvent`.
pub struct CommentEventView {
    pub comment_id: Seq<char>,
    pub at_ms: int,
    pub user_id: Seq<char>,
    pub text: Seq<char>,
}

impl View for CommentEvent {
    type V = CommentEventView;

    open spec fn view(&self) -> CommentEventView {
        CommentEventView {
            comment_id: self.comment_id@,
            at_ms: self.at_ms as int,
            user_id: self.user_id@,
            text: self.text@,
        }
    }
}

impl DeepView for CommentEvent {
    type V = CommentEventView;

    open spec fn deep_view(&self) -> CommentEventView {
        self.view()
    }
}

impl Clone for CommentEvent {
    fn clone(&self) -> (r: Self)
        ensures
            r@ == self@,
    {
        CommentEvent {
            comment_id: self.comment_id.clone(),
            at_ms: self.at_ms,
            user_id: self.user_id.clone(),
            text: self.text.clone(),
        }
    }
}

/// The views of a sequence of comments.
pub open spec fn comment_views(s: Seq<CommentEvent>) -> Seq<CommentEventView> {
    s.map_values(|c: CommentEvent| c@)
}

/// Where the comments of a session were obtained: freshly fetched, replayed
/// from the local cache, or nowhere (the session starts empty).
#[derive(Debug, Clone, Copy, PartialEq, Eq, Structural)]
pub enum CommentSource {
    Network,
    Cache,
    Absent,
}

impl CommentSource {
    /// The wire name of the source indicator.
    pub fn as_str(self) -> (r: &'static str)
        ensures
            self == CommentSource::Network ==> r@ == "network"@,
            self == CommentSource::Cache ==> r@ == "cache"@,
            self == CommentSource::Absent ==> r@ == "none"@,
    {
        match self {
            CommentSource::Network => "network",
            CommentSource::Cache => "cache",
            CommentSource::Absent => "none",
        }
    }
}

/// The pluggable comment-fetch capability: production code backs it with
/// the remote comment service, tests with canned data.  On failure the
/// orchestration falls back to cached comments, or to none.
pub trait CommentFetcher {
    fn fetch_comments(&self, video_id: &str) -> Result<Vec<CommentEvent>, String>;
}

} // verus!
