//! The typed request and response shapes of every operation the core
//! supports.  The surrounding transport layer decodes its envelope into
//! these values and encodes the results back; the core itself never sees
//! the envelope.

use vstd::prelude::*;

use crate::domain::CommentEvent;
use crate::filter::RegexFilterEntry;
use crate::session::PlaybackTickSample;

verus! {

/// A transport-level failure, as code and message.
#[derive(Debug)]
pub struct JsonRpcError {
    pub code: i64,
    pub message: String,
}

#[derive(Debug)]
pub struct OpenVideoParams {
    pub video_path: String,
    pub video_id: String,
}

#[derive(Debug)]
pub struct OpenVideoResult {
    pub session_id: String,
    pub comment_source: String,
    pub total_comments: usize,
}

/// The single-sample tick request of an earlier protocol revision; the
/// batch form below replaced it.
#[derive(Debug)]
pub struct PlaybackTickParams {
    pub session_id: String,
    pub position_ms: i64,
    pub paused: bool,
    pub is_seek: bool,
}

/// The single-sample tick response of an earlier protocol revision.
#[derive(Debug)]
pub struct PlaybackTickResult {
    pub emit_comments: Vec<CommentEvent>,
}

#[derive(Debug)]
pub struct PlaybackTickBatchParams {
    pub session_id: String,
    pub ticks: Vec<PlaybackTickSample>,
}

#[derive(Debug)]
pub struct PlaybackTickBatchResult {
    pub emit_comments: Vec<CommentEvent>,
    pub processed_ticks: usize,
    pub last_position_ms: i64,
    pub dropped_comments: usize,
    pub coalesced_comments: usize,
    pub emit_over_budget: bool,
}

#[derive(Debug)]
pub struct AddNgUserParams {
    pub user_id: String,
}

#[derive(Debug)]
pub struct AddNgUserResult {
    pub applied: bool,
    pub undo_token: String,
    pub hidden_user_id: String,
}

#[derive(Debug)]
pub struct RemoveNgUserParams {
    pub user_id: String,
}

#[derive(Debug)]
pub struct RemoveNgUserResult {
    pub removed: bool,
    pub user_id: String,
}

#[derive(Debug)]
pub struct UndoLastNgParams {
    pub undo_token: String,
}

#[derive(Debug)]
pub struct UndoLastNgResult {
    pub restored: bool,
    pub user_id: Option<String>,
}

#[derive(Debug)]
pub struct AddRegexFilterParams {
    pub pattern: String,
}

#[derive(Debug)]
pub struct AddRegexFilterResult {
    pub filter_id: i64,
}

#[derive(Debug)]
pub struct RemoveRegexFilterParams {
    pub filter_id: i64,
}

#[derive(Debug)]
pub struct RemoveRegexFilterResult {
    pub removed: bool,
}

#[derive(Debug)]
pub struct ListFiltersResult {
    pub ng_users: Vec<String>,
    pub regex_filters: Vec<RegexFilterEntry>,
}

#[derive(Debug)]
pub struct SetRuntimeProfileParams {
    pub profile: String,
    pub target_fps: Option<u32>,
    pub max_emit_per_tick: Option<usize>,
    pub coalesce_same_content: Option<bool>,
}

#[derive(Debug)]
pub struct SetRuntimeProfileResult {
    pub profile: String,
    pub target_fps: u32,
    pub max_emit_per_tick: usize,
    pub coalesce_same_content: bool,
}

#[derive(Debug)]
pub struct PingResult {
    pub ok: bool,
}

} // verus!
