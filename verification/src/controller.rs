//! The owning controller: every open session, the filter pipeline, the
//! process-wide runtime profile and the single-slot undo ledger live here,
//! and every entry point runs to completion before the next begins.  The
//! surrounding program supplies already-materialized comment lists and
//! persists filter mutations; the controller holds the verified state
//! machine.

use vstd::prelude::*;

use crate::domain::CommentEvent;
use crate::domain::CommentSource;
use crate::domain::comment_views;
use crate::filter::FilterEngine;
use crate::filter::FilterEngineView;
use crate::filter::FilterError;
use crate::filter::RegexFilterEntry;
use crate::filter::filter_views;
use crate::filter::has_filter_id;
use crate::filter::not_user_pred;
use crate::filter::pattern_ok;
use crate::filter::string_views;
use crate::filter::without_filter_id;
use crate::filter::without_user;
use crate::governor::apply_emit_budget;
use crate::governor::budget_keep;
use crate::governor::coalesce_emitted_comments;
use crate::governor::coalesce_spec;
use crate::profile::RuntimeProfile;
use crate::profile::RuntimeProfileConfig;
use crate::profile::parse_profile;
use crate::profile::profile_baseline;
use crate::profile::with_overrides;
use crate::protocol::AddNgUserResult;
use crate::protocol::AddRegexFilterResult;
use crate::protocol::ListFiltersResult;
use crate::protocol::OpenVideoResult;
use crate::protocol::PingResult;
use crate::protocol::PlaybackTickBatchParams;
use crate::protocol::PlaybackTickBatchResult;
use crate::protocol::RemoveNgUserResult;
use crate::protocol::RemoveRegexFilterResult;
use crate::protocol::SetRuntimeProfileParams;
use crate::protocol::SetRuntimeProfileResult;
use crate::protocol::UndoLastNgResult;
use crate::session::Session;
use crate::session::SessionView;
use crate::session::batch_emits;
use crate::session::batch_state;
use crate::session::count_le;
use crate::session::sorted_by_at;

verus! {

/// Why a core operation failed.
#[derive(Debug, Clone, Copy, PartialEq, Eq, Structural)]
pub enum CoreError {
    SessionNotFound,
    UnknownProfile,
}

/// The single pending undo: the token that authorizes it and the user the
/// reversal would unblock.
struct UndoState {
    token: String,
    user_id: String,
}

/// The mathematical value of the pending undo slot.
pub struct UndoView {
    pub token: Seq<char>,
    pub user_id: Seq<char>,
}

/// The mathematical value of the whole controller.
pub struct AppCoreView {
    pub filters: FilterEngineView,
    pub sessions: Seq<(Seq<char>, SessionView)>,
    pub undo: Option<UndoView>,
    pub profile: RuntimeProfileConfig,
}

/// The first session stored under `id`, if any.
pub open spec fn lookup_session(s: Seq<(Seq<char>, SessionView)>, id: Seq<char>) -> Option<
    SessionView,
>
    decreases s.len(),
{
    if s.len() == 0 {
        None
    } else if s[0].0 == id {
        Some(s[0].1)
    } else {
        lookup_session(s.drop_first(), id)
    }
}

proof fn lemma_lookup_found(s: Seq<(Seq<char>, SessionView)>, id: Seq<char>, i: int)
    requires
        0 <= i < s.len(),
        forall|k: int| 0 <= k < i ==> (#[trigger] s[k]).0 != id,
        s[i].0 == id,
    ensures
        lookup_session(s, id) == Some(s[i].1),
    decreases i,
{
    if i > 0 {
        let d = s.drop_first();
        assert(forall|k: int| 0 <= k < i - 1 ==> (#[trigger] d[k]).0 != id);
        assert(d[i - 1] == s[i]);
        lemma_lookup_found(d, id, i - 1);
    }
}

proof fn lemma_lookup_absent(s: Seq<(Seq<char>, SessionView)>, id: Seq<char>)
    requires
        forall|k: int| 0 <= k < s.len() ==> (#[trigger] s[k]).0 != id,
    ensures
        lookup_session(s, id) is None,
    decreases s.len(),
{
    if s.len() > 0 {
        let d = s.drop_first();
        assert(forall|k: int| 0 <= k < d.len() ==> (#[trigger] d[k]).0 != id);
        lemma_lookup_absent(d, id);
    }
}

proof fn lemma_lookup_push_other(
    s: Seq<(Seq<char>, SessionView)>,
    entry: (Seq<char>, SessionView),
    id: Seq<char>,
)
    requires
        entry.0 != id,
    ensures
        lookup_session(s.push(entry), id) == lookup_session(s, id),
    decreases s.len(),
{
    let s2 = s.push(entry);
    if s.len() == 0 {
        assert(s2[0] == entry);
        assert(s2.drop_first() =~= Seq::<(Seq<char>, SessionView)>::empty());
        assert(lookup_session(s2.drop_first(), id) is None);
        assert(lookup_session(s2, id) is None);
        assert(lookup_session(s, id) is None);
    } else {
        assert(s2[0] == s[0]);
        assert(s2.drop_first() =~= s.drop_first().push(entry));
        lemma_lookup_push_other(s.drop_first(), entry, id);
    }
}

/// Two session lists whose entries agree wherever the key is `id` have the
/// same lookup for `id`.
proof fn lemma_lookup_congruent(
    s1: Seq<(Seq<char>, SessionView)>,
    s2: Seq<(Seq<char>, SessionView)>,
    id: Seq<char>,
)
    requires
        s1.len() == s2.len(),
        forall|k: int| 0 <= k < s1.len() ==> ((#[trigger] s1[k]).0 == id <==> s2[k].0 == id),
        forall|k: int| 0 <= k < s1.len() ==> ((#[trigger] s1[k]).0 == id ==> s1[k].1 == s2[k].1),
    ensures
        lookup_session(s1, id) == lookup_session(s2, id),
    decreases s1.len(),
{
    if s1.len() > 0 {
        if s1[0].0 == id {
        } else {
            let d1 = s1.drop_first();
            let d2 = s2.drop_first();
            assert(forall|k: int| 0 <= k < d1.len() ==> #[trigger] d1[k] == s1[k + 1]);
            assert(forall|k: int| 0 <= k < d2.len() ==> #[trigger] d2[k] == s2[k + 1]);
            lemma_lookup_congruent(d1, d2, id);
        }
    }
}

/// The views of the stored session list.
pub open spec fn session_entries(s: Seq<(String, Session)>) -> Seq<(Seq<char>, SessionView)> {
    s.map_values(|p: (String, Session)| (p.0@, p.1@))
}

/// How the controller changes when a user is blocked: the flag says whether
/// the id was newly inserted; a qualifying add issues the fresh token and
/// overwrites the pending undo; everything else is untouched.
pub open spec fn add_ng_transition(
    pre: AppCoreView,
    post: AppCoreView,
    user_id: Seq<char>,
    applied: bool,
    token: Seq<char>,
) -> bool {
    &&& applied == !pre.filters.ng_users.contains(user_id)
    &&& post.filters.filters == pre.filters.filters
    &&& applied ==> post.filters.ng_users == pre.filters.ng_users.push(user_id)
    &&& !applied ==> post.filters.ng_users == pre.filters.ng_users
    &&& applied ==> post.undo == Some(UndoView { token, user_id })
    &&& !applied ==> post.undo == pre.undo && token.len() == 0
    &&& post.sessions == pre.sessions
    &&& post.profile == pre.profile
}

/// How the controller changes on an undo request: only an exact token match
/// against the pending slot restores — unblocking the remembered user and
/// clearing the slot; any mismatch or empty slot changes nothing and fails
/// softly.
pub open spec fn undo_transition(
    pre: AppCoreView,
    post: AppCoreView,
    token: Seq<char>,
    restored: bool,
    user: Option<Seq<char>>,
) -> bool {
    &&& restored == (pre.undo is Some && pre.undo->Some_0.token == token)
    &&& restored ==> post.filters.ng_users == without_user(
        pre.filters.ng_users,
        pre.undo->Some_0.user_id,
    ) && post.undo is None && user == Some(pre.undo->Some_0.user_id)
    &&& !restored ==> post.filters.ng_users == pre.filters.ng_users && post.undo == pre.undo
        && user is None
    &&& post.filters.filters == pre.filters.filters
    &&& post.sessions == pre.sessions
    &&& post.profile == pre.profile
}

/// The view of an optional owned string.
pub open spec fn view_opt_string(o: Option<String>) -> Option<Seq<char>> {
    match o {
        Some(u) => Some(u@),
        None => None,
    }
}

/// What the governor keeps before budgeting: the coalesced survivors when
/// coalescing is enabled, the raw accumulation otherwise.
pub open spec fn survivors_of(
    raw: Seq<crate::domain::CommentEventView>,
    cfg: RuntimeProfileConfig,
) -> Seq<crate::domain::CommentEventView> {
    if cfg.coalesce_same_content {
        coalesce_spec(raw)
    } else {
        raw
    }
}

/// Filtering with a predicate every element satisfies changes nothing.
proof fn lemma_filter_all_true<A>(s: Seq<A>, pred: spec_fn(A) -> bool)
    requires
        forall|i: int| 0 <= i < s.len() ==> pred(#[trigger] s[i]),
    ensures
        s.filter(pred) == s,
    decreases s.len(),
{
    reveal(Seq::filter);
    if s.len() > 0 {
        let d = s.drop_last();
        assert(forall|i: int| 0 <= i < d.len() ==> pred(#[trigger] d[i]));
        lemma_filter_all_true(d, pred);
        assert(pred(s.last()));
        assert(s.filter(pred) =~= s);
    }
}

/// Undo round-trip: a qualifying add of a user, followed by an undo with
/// the token it issued, restores the pre-add blocked-user set and clears
/// the ledger; a second undo with the same token then restores nothing and
/// leaves the state unchanged.
pub proof fn lemma_undo_round_trip(
    s0: AppCoreView,
    s1: AppCoreView,
    s2: AppCoreView,
    s3: AppCoreView,
    user_id: Seq<char>,
    token: Seq<char>,
    r1_restored: bool,
    r1_user: Option<Seq<char>>,
    r2_restored: bool,
    r2_user: Option<Seq<char>>,
)
    requires
        add_ng_transition(s0, s1, user_id, true, token),
        undo_transition(s1, s2, token, r1_restored, r1_user),
        undo_transition(s2, s3, token, r2_restored, r2_user),
    ensures
        r1_restored,
        r1_user == Some(user_id),
        s2.filters.ng_users == s0.filters.ng_users,
        s2.filters.filters == s0.filters.filters,
        s2.sessions == s0.sessions,
        s2.profile == s0.profile,
        s2.undo is None,
        !r2_restored,
        s3 == s2,
{
    let pred = not_user_pred(user_id);
    assert(s1.filters.ng_users == s0.filters.ng_users.push(user_id));
    assert(s2.filters.ng_users == s1.filters.ng_users.filter(pred));
    reveal(Seq::filter);
    assert(s1.filters.ng_users.drop_last() =~= s0.filters.ng_users);
    assert(s1.filters.ng_users.last() == user_id);
    assert(s2.filters.ng_users == s0.filters.ng_users.filter(pred));
    assert forall|i: int| 0 <= i < s0.filters.ng_users.len() implies pred(
        #[trigger] s0.filters.ng_users[i],
    ) by {
        if s0.filters.ng_users[i] == user_id {
            assert(s0.filters.ng_users.contains(user_id));
        }
    }
    lemma_filter_all_true(s0.filters.ng_users, pred);
}

/// The core controller.
pub struct AppCore {
    filter_engine: FilterEngine,
    sessions: Vec<(String, Session)>,
    last_undo: Option<UndoState>,
    runtime_profile: RuntimeProfileConfig,
}

impl View for AppCore {
    type V = AppCoreView;

    closed spec fn view(&self) -> AppCoreView {
        AppCoreView {
            filters: self.filter_engine@,
            sessions: session_entries(self.sessions@),
            undo: match self.last_undo {
                Some(u) => Some(UndoView { token: u.token@, user_id: u.user_id@ }),
                None => None,
            },
            profile: self.runtime_profile,
        }
    }
}

/// Relies on `uuid::Uuid::new_v4` and its hyphenated `Display` form: a
/// fresh random identifier rendered as 36 characters.  Nothing more is
/// promised of a random value.
#[verifier::external_body]
fn fresh_token() -> (r: String)
    ensures
        r@.len() == 36,
{
    uuid::Uuid::new_v4().to_string()
}

impl AppCore {
    /// The controller invariant: session ids are pairwise distinct, every
    /// session satisfies its own invariant, and the filter engine is
    /// well formed.
    pub open spec fn wf(self) -> bool {
        &&& sessions_wf(self@.sessions)
        &&& self.filter_engine_wf()
    }

    /// The filter-engine part of the invariant.
    pub closed spec fn filter_engine_wf(self) -> bool {
        self.filter_engine.wf()
    }

    /// Builds a controller from persisted filter state: blocked users are
    /// deduplicated and every stored pattern must still compile; sessions
    /// start empty, no undo is pending, and the balanced profile's
    /// defaults apply.
    pub fn new(ng_users: Vec<String>, regex_filters: Vec<RegexFilterEntry>) -> (r: Result<
        AppCore,
        FilterError,
    >)
        ensures
            r is Ok <==> (forall|i: int|
                0 <= i < regex_filters@.len() ==> pattern_ok(
                    #[trigger] regex_filters@[i].pattern@,
                )),
            r is Ok ==> {
                let core = r->Ok_0;
                &&& core.wf()
                &&& core@.filters.filters == filter_views(regex_filters@)
                &&& forall|u: Seq<char>|
                    core@.filters.ng_users.contains(u) <==> string_views(ng_users@).contains(u)
                &&& core@.sessions.len() == 0
                &&& core@.undo is None
                &&& core@.profile == profile_baseline(RuntimeProfile::Balanced)
            },
    {
        let engine = match FilterEngine::new(ng_users, regex_filters) {
            Ok(engine) => engine,
            Err(e) => {
                return Err(e);
            },
        };
        let core = AppCore {
            filter_engine: engine,
            sessions: Vec::new(),
            last_undo: None,
            runtime_profile: RuntimeProfileConfig::defaults(),
        };
        proof {
            assert(session_entries(core.sessions@) =~= Seq::<(Seq<char>, SessionView)>::empty());
        }
        Ok(core)
    }

    /// The health check.
    pub fn ping(&self) -> (r: PingResult)
        ensures
            r.ok,
    {
        PingResult { ok: true }
    }

    /// The position of the session stored under `id`, if any.
    fn find_index(&self, id: &str) -> (r: Option<usize>)
        ensures
            r is Some ==> 0 <= r->Some_0 < self@.sessions.len() && (#[trigger] self@.sessions[
                r->Some_0 as int
            ]).0 == id@ && (forall|k: int|
                0 <= k < r->Some_0 ==> (#[trigger] self@.sessions[k]).0 != id@),
            r is None ==> forall|k: int|
                0 <= k < self@.sessions.len() ==> (#[trigger] self@.sessions[k]).0 != id@,
    {
        let probe = id.to_owned();
        let mut i: usize = 0;
        while i < self.sessions.len()
            invariant
                i <= self.sessions.len(),
                probe@ == id@,
                forall|k: int|
                    0 <= k < i ==> (#[trigger] session_entries(self.sessions@)[k]).0 != id@,
            decreases self.sessions.len() - i,
        {
            if self.sessions[i].0.eq(&probe) {
                assert(session_entries(self.sessions@)[i as int].0 == id@);
                return Some(i);
            }
            assert(session_entries(self.sessions@)[i as int].0 != id@);
            i += 1;
        }
        None
    }

    /// Opens a session over an already-materialized comment list: the
    /// comments are sorted ascending by offset, the cursor starts at the
    /// count of comments due at offset zero, and a fresh opaque session id
    /// is handed back together with the source indicator and the total.
    pub fn open_video(&mut self, comments: Vec<CommentEvent>, source: CommentSource) -> (r:
        OpenVideoResult)
        requires
            old(self).wf(),
        ensures
            final(self).wf(),
            r.session_id@.len() == 36,
            r.total_comments == comments@.len(),
            source == CommentSource::Network ==> r.comment_source@ == "network"@,
            source == CommentSource::Cache ==> r.comment_source@ == "cache"@,
            source == CommentSource::Absent ==> r.comment_source@ == "none"@,
            ({
                let entry = lookup_session(final(self)@.sessions, r.session_id@);
                &&& entry is Some
                &&& sorted_by_at(entry->Some_0.comments)
                &&& entry->Some_0.comments.to_multiset() == comment_views(comments@).to_multiset()
                &&& entry->Some_0.cursor == count_le(entry->Some_0.comments, 0)
                &&& entry->Some_0.last_position_ms == 0
            }),
            forall|id2: Seq<char>|
                id2 != r.session_id@ ==> #[trigger] lookup_session(final(self)@.sessions, id2)
                    == lookup_session(old(self)@.sessions, id2),
            final(self)@.filters == old(self)@.filters,
            final(self)@.undo == old(self)@.undo,
            final(self)@.profile == old(self)@.profile,
    {
        broadcast use vstd::seq_lib::group_to_multiset_ensures;

        let total = comments.len();
        let ghost input_views = comment_views(comments@);
        let sess = Session::new(comments);
        let ghost sv = sess@;
        proof {
            assert(sv.comments.len() == sv.comments.to_multiset().len());
            assert(input_views.len() == input_views.to_multiset().len());
        }
        let session_id = fresh_token();
        let ghost sid = session_id@;
        let ghost entries_old = session_entries(self.sessions@);
        let found = self.find_index(session_id.as_str());
        match found {
            Some(idx) => {
                let removed = self.sessions.remove(idx);
                self.sessions.insert(idx, (session_id.clone(), sess));
                proof {
                    let entries_new = session_entries(self.sessions@);
                    assert(entries_new =~= entries_old.update(idx as int, (sid, sv)));
                    assert(sessions_wf(entries_new)) by {
                        assert forall|a: int, b: int|
                            0 <= a < b < entries_new.len() implies (#[trigger] entries_new[a]).0
                            != (#[trigger] entries_new[b]).0 by {
                            assert(entries_old[a].0 != entries_old[b].0);
                            assert(entries_old[idx as int].0 == sid);
                        }
                        assert(forall|a: int|
                            0 <= a < entries_new.len() ==> (#[trigger] entries_new[a]).1.wf());
                    }
                    lemma_lookup_found(entries_new, sid, idx as int);
                    assert forall|id2: Seq<char>| id2 != sid implies #[trigger] lookup_session(
                        entries_new,
                        id2,
                    ) == lookup_session(entries_old, id2) by {
                        lemma_lookup_congruent(entries_old, entries_new, id2);
                    }
                }
            },
            None => {
                self.sessions.push((session_id.clone(), sess));
                proof {
                    let entries_new = session_entries(self.sessions@);
                    assert(entries_new =~= entries_old.push((sid, sv)));
                    assert(sessions_wf(entries_new)) by {
                        assert forall|a: int, b: int|
                            0 <= a < b < entries_new.len() implies (#[trigger] entries_new[a]).0
                            != (#[trigger] entries_new[b]).0 by {
                            if b < entries_old.len() {
                                assert(entries_old[a].0 != entries_old[b].0);
                            } else {
                                assert(entries_new[b].0 == sid);
                                assert(entries_old[a].0 != sid);
                            }
                        }
                        assert(forall|a: int|
                            0 <= a < entries_new.len() ==> (#[trigger] entries_new[a]).1.wf());
                    }
                    lemma_lookup_found(entries_new, sid, entries_old.len() as int);
                    assert forall|id2: Seq<char>| id2 != sid implies #[trigger] lookup_session(
                        entries_new,
                        id2,
                    ) == lookup_session(entries_old, id2) by {
                        lemma_lookup_push_other(entries_old, (sid, sv), id2);
                    }
                }
            },
        }
        let comment_source = source.as_str().to_owned();
        OpenVideoResult { session_id, comment_source, total_comments: total }
    }

    /// Processes a batch of playback samples against one session, applying
    /// each sample in order, then hands the accumulated emissions to the
    /// governor: coalesce first (when the active profile asks for it),
    /// budget second.  An unknown session id fails with `SessionNotFound`
    /// and changes nothing.
    #[verifier::loop_isolation(false)]
    pub fn playback_tick_batch(&mut self, params: PlaybackTickBatchParams) -> (r: Result<
        PlaybackTickBatchResult,
        CoreError,
    >)
        requires
            old(self).wf(),
        ensures
            final(self).wf(),
            final(self)@.filters == old(self)@.filters,
            final(self)@.undo == old(self)@.undo,
            final(self)@.profile == old(self)@.profile,
            r is Ok <==> lookup_session(old(self)@.sessions, params.session_id@) is Some,
            r is Err ==> final(self)@ == old(self)@ && r->Err_0 == CoreError::SessionNotFound,
            r is Ok ==> ({
                let pre = lookup_session(old(self)@.sessions, params.session_id@)->Some_0;
                let post = batch_state(pre, params.ticks@);
                let raw = batch_emits(pre, params.ticks@, old(self)@.filters);
                let kept = survivors_of(raw, old(self)@.profile);
                let budget = old(self)@.profile.max_emit_per_tick;
                let res = r->Ok_0;
                &&& comment_views(res.emit_comments@) == budget_keep(kept, budget as int)
                &&& res.processed_ticks == params.ticks@.len()
                &&& res.last_position_ms == post.last_position_ms
                &&& res.coalesced_comments == raw.len() - kept.len()
                &&& res.dropped_comments == if budget > 0 && kept.len() > budget {
                    kept.len() - budget
                } else {
                    0int
                }
                &&& res.emit_over_budget == (budget > 0 && kept.len() > budget)
                &&& exists|k: int|
                    0 <= k < old(self)@.sessions.len() && (#[trigger] old(self)@.sessions[k]).0
                        == params.session_id@ && final(self)@.sessions == old(
                        self,
                    )@.sessions.update(k, (params.session_id@, post))
            }),
    {
        let ghost entries_old = session_entries(self.sessions@);
        let ghost sid = params.session_id@;
        let idx = match self.find_index(params.session_id.as_str()) {
            Some(idx) => {
                proof {
                    lemma_lookup_found(entries_old, sid, idx as int);
                }
                idx
            },
            None => {
                proof {
                    lemma_lookup_absent(entries_old, sid);
                }
                return Err(CoreError::SessionNotFound);
            },
        };
        let pair = self.sessions.remove(idx);
        let key = pair.0;
        let mut sess = pair.1;
        let ghost pre = entries_old[idx as int].1;
        let ghost f = self.filter_engine@;
        let ghost ticks = params.ticks@;
        let mut emitted: Vec<CommentEvent> = Vec::new();
        let n = params.ticks.len();
        let mut t: usize = 0;
        proof {
            assert(ticks.take(0) =~= Seq::<crate::session::PlaybackTickSample>::empty());
            assert(comment_views(emitted@) =~= Seq::<crate::domain::CommentEventView>::empty());
        }
        while t < n
            invariant
                t <= n,
                n == ticks.len(),
                sess@ == batch_state(pre, ticks.take(t as int)),
                sess.wf(),
                self.filter_engine@ == f,
                comment_views(emitted@) == batch_emits(pre, ticks.take(t as int), f),
            decreases n - t,
        {
            let tick = params.ticks[t];
            let ghost before = comment_views(emitted@);
            let mut part = sess.apply_playback_tick(&tick, &self.filter_engine);
            let ghost pviews = comment_views(part@);
            proof {
                assert(ticks.take(t + 1).drop_last() =~= ticks.take(t as int));
                assert(ticks.take(t + 1).last() == ticks[t as int]);
                assert(pviews == crate::session::tick_emits(
                    batch_state(pre, ticks.take(t as int)),
                    ticks[t as int],
                    f,
                ));
            }
            emitted.append(&mut part);
            proof {
                assert(comment_views(emitted@) =~= before + pviews);
            }
            t += 1;
        }
        proof {
            assert(ticks.take(n as int) =~= ticks);
        }
        let ghost post = batch_state(pre, ticks);
        let ghost raw = batch_emits(pre, ticks, f);
        let last_position_ms = sess.last_position_ms();
        self.sessions.insert(idx, (key, sess));
        proof {
            let entries_new = session_entries(self.sessions@);
            assert(entries_new =~= entries_old.update(idx as int, (sid, post)));
            assert(sessions_wf(entries_new)) by {
                assert forall|a: int, b: int|
                    0 <= a < b < entries_new.len() implies (#[trigger] entries_new[a]).0
                    != (#[trigger] entries_new[b]).0 by {
                    assert(entries_old[a].0 != entries_old[b].0);
                    assert(entries_old[idx as int].0 == sid);
                }
                assert(forall|a: int|
                    0 <= a < entries_new.len() ==> (#[trigger] entries_new[a]).1.wf());
            }
        }
        let cfg = self.runtime_profile;
        let coalesce_pair = if cfg.coalesce_same_content {
            coalesce_emitted_comments(emitted)
        } else {
            (emitted, 0usize)
        };
        let survivors = coalesce_pair.0;
        let coalesced_comments = coalesce_pair.1;
        proof {
            assert(comment_views(survivors@) == survivors_of(raw, cfg));
        }
        let budget_triple = apply_emit_budget(survivors, cfg.max_emit_per_tick);
        Ok(PlaybackTickBatchResult {
            emit_comments: budget_triple.0,
            processed_ticks: n,
            last_position_ms,
            dropped_comments: budget_triple.1,
            coalesced_comments,
            emit_over_budget: budget_triple.2,
        })
    }

    /// Blocks a user.  A qualifying add — one that newly blocks the id —
    /// issues a fresh single-use undo token and overwrites any pending one;
    /// a repeated add changes nothing and issues no token.
    pub fn add_ng_user(&mut self, user_id: &str) -> (r: AddNgUserResult)
        requires
            old(self).wf(),
        ensures
            final(self).wf(),
            add_ng_transition(old(self)@, final(self)@, user_id@, r.applied, r.undo_token@),
            r.hidden_user_id@ == user_id@,
            r.applied ==> r.undo_token@.len() == 36,
    {
        let applied = self.filter_engine.add_ng_user(user_id);
        let undo_token = if applied {
            let token = fresh_token();
            self.last_undo = Some(UndoState { token: token.clone(), user_id: user_id.to_owned() });
            token
        } else {
            String::new()
        };
        AddNgUserResult { applied, undo_token, hidden_user_id: user_id.to_owned() }
    }

    /// Unblocks a user.  `removed_elsewhere` reports whether the durable
    /// store had the row; the result combines both.  A removal that touches
    /// the user remembered by the pending undo clears the ledger, so a
    /// stale token cannot later revive a user removed through this path.
    pub fn remove_ng_user(&mut self, user_id: &str, removed_elsewhere: bool) -> (r:
        RemoveNgUserResult)
        requires
            old(self).wf(),
        ensures
            final(self).wf(),
            r.removed == (removed_elsewhere || old(self)@.filters.ng_users.contains(user_id@)),
            r.user_id@ == user_id@,
            final(self)@.filters.ng_users == without_user(old(self)@.filters.ng_users, user_id@),
            final(self)@.filters.filters == old(self)@.filters.filters,
            final(self)@.undo == if r.removed && old(self)@.undo is Some && old(
                self,
            )@.undo->Some_0.user_id == user_id@ {
                None::<UndoView>
            } else {
                old(self)@.undo
            },
            final(self)@.sessions == old(self)@.sessions,
            final(self)@.profile == old(self)@.profile,
    {
        let removed_mem = self.filter_engine.remove_ng_user(user_id);
        let removed = removed_elsewhere || removed_mem;
        if removed {
            let clear = match &self.last_undo {
                Some(undo) => undo.user_id.eq(&user_id.to_owned()),
                None => false,
            };
            if clear {
                self.last_undo = None;
            }
        }
        RemoveNgUserResult { removed, user_id: user_id.to_owned() }
    }

    /// Reverses the most recent qualifying add, but only on an exact token
    /// match: success unblocks the remembered user and clears the ledger;
    /// a mismatch or an empty slot restores nothing and is not an error.
    pub fn undo_last_ng(&mut self, undo_token: &str) -> (r: UndoLastNgResult)
        requires
            old(self).wf(),
        ensures
            final(self).wf(),
            undo_transition(
                old(self)@,
                final(self)@,
                undo_token@,
                r.restored,
                view_opt_string(r.user_id),
            ),
    {
        let pending = match &self.last_undo {
            Some(undo) => Some((undo.token.clone(), undo.user_id.clone())),
            None => None,
        };
        match pending {
            None => UndoLastNgResult { restored: false, user_id: None },
            Some((token, user)) => {
                if !token.eq(&undo_token.to_owned()) {
                    UndoLastNgResult { restored: false, user_id: None }
                } else {
                    self.filter_engine.remove_ng_user(user.as_str());
                    self.last_undo = None;
                    UndoLastNgResult { restored: true, user_id: Some(user) }
                }
            },
        }
    }

    /// Deterministic snapshots of both filter lists: blocked users in a
    /// stable order, regex filters in insertion order.
    pub fn list_filters(&self) -> (r: ListFiltersResult)
        ensures
            string_views(r.ng_users@) == self@.filters.ng_users,
            filter_views(r.regex_filters@) == self@.filters.filters,
    {
        ListFiltersResult {
            ng_users: self.filter_engine.list_ng_users(),
            regex_filters: self.filter_engine.list_regex_filters(),
        }
    }

    /// Adds a regex filter whose id the durable store assigned.  The
    /// pattern is validated strictly before any mutation; an invalid one
    /// is rejected with `InvalidRegex` and nothing changes.
    pub fn add_regex_filter(&mut self, filter: RegexFilterEntry) -> (r: Result<
        AddRegexFilterResult,
        FilterError,
    >)
        requires
            old(self).wf(),
        ensures
            final(self).wf(),
            r is Ok <==> pattern_ok(filter@.pattern),
            r is Ok ==> final(self)@.filters.filters == old(self)@.filters.filters.push(filter@)
                && (r->Ok_0).filter_id == filter.filter_id,
            r is Err ==> final(self)@.filters == old(self)@.filters,
            final(self)@.filters.ng_users == old(self)@.filters.ng_users,
            final(self)@.sessions == old(self)@.sessions,
            final(self)@.undo == old(self)@.undo,
            final(self)@.profile == old(self)@.profile,
    {
        let filter_id = filter.filter_id;
        match self.filter_engine.add_regex_filter(filter) {
            Ok(()) => Ok(AddRegexFilterResult { filter_id }),
            Err(e) => Err(e),
        }
    }

    /// Removes a regex filter by id.  `removed_elsewhere` reports whether
    /// the durable store had the row; the result combines both.
    pub fn remove_regex_filter(&mut self, filter_id: i64, removed_elsewhere: bool) -> (r:
        RemoveRegexFilterResult)
        requires
            old(self).wf(),
        ensures
            final(self).wf(),
            r.removed == (removed_elsewhere || has_filter_id(
                old(self)@.filters.filters,
                filter_id as int,
            )),
            final(self)@.filters.filters == without_filter_id(
                old(self)@.filters.filters,
                filter_id as int,
            ),
            final(self)@.filters.ng_users == old(self)@.filters.ng_users,
            final(self)@.sessions == old(self)@.sessions,
            final(self)@.undo == old(self)@.undo,
            final(self)@.profile == old(self)@.profile,
    {
        let removed_mem = self.filter_engine.remove_regex_filter(filter_id);
        RemoveRegexFilterResult { removed: removed_elsewhere || removed_mem }
    }

    /// Replaces the process-wide runtime profile: the named baseline's
    /// defaults are restored, then the explicit overrides applied.  An
    /// unknown profile name fails with `UnknownProfile` and leaves the
    /// current configuration untouched.
    pub fn set_runtime_profile(&mut self, params: SetRuntimeProfileParams) -> (r: Result<
        SetRuntimeProfileResult,
        CoreError,
    >)
        requires
            old(self).wf(),
        ensures
            final(self).wf(),
            r is Ok <==> parse_profile(params.profile@) is Some,
            r is Err ==> final(self)@ == old(self)@ && r->Err_0 == CoreError::UnknownProfile,
            r is Ok ==> final(self)@.profile == with_overrides(
                profile_baseline(parse_profile(params.profile@)->Some_0),
                params.target_fps,
                params.max_emit_per_tick,
                params.coalesce_same_content,
            ),
            r is Ok ==> {
                let res = r->Ok_0;
                &&& res.target_fps == final(self)@.profile.target_fps
                &&& res.max_emit_per_tick == final(self)@.profile.max_emit_per_tick
                &&& res.coalesce_same_content == final(self)@.profile.coalesce_same_content
                &&& (final(self)@.profile.profile == RuntimeProfile::High ==> res.profile@
                    == "high"@)
                &&& (final(self)@.profile.profile == RuntimeProfile::Balanced ==> res.profile@
                    == "balanced"@)
                &&& (final(self)@.profile.profile == RuntimeProfile::LowSpec ==> res.profile@
                    == "low_spec"@)
            },
            final(self)@.filters == old(self)@.filters,
            final(self)@.sessions == old(self)@.sessions,
            final(self)@.undo == old(self)@.undo,
    {
        let profile = match RuntimeProfile::from_str(params.profile.as_str()) {
            Some(profile) => profile,
            None => {
                return Err(CoreError::UnknownProfile);
            },
        };
        let mut config = RuntimeProfileConfig::for_profile(profile);
        config.apply_overrides(
            params.target_fps,
            params.max_emit_per_tick,
            params.coalesce_same_content,
        );
        self.runtime_profile = config;
        Ok(SetRuntimeProfileResult {
            profile: self.runtime_profile.profile.as_str().to_owned(),
            target_fps: self.runtime_profile.target_fps,
            max_emit_per_tick: self.runtime_profile.max_emit_per_tick,
            coalesce_same_content: self.runtime_profile.coalesce_same_content,
        })
    }
}

/// The sessions part of the invariant: ids pairwise distinct and every
/// session well formed.
pub open spec fn sessions_wf(s: Seq<(Seq<char>, SessionView)>) -> bool {
    &&& forall|i: int, j: int|
        0 <= i < j < s.len() ==> (#[trigger] s[i]).0 != (#[trigger] s[j]).0
    &&& forall|i: int| 0 <= i < s.len() ==> (#[trigger] s[i]).1.wf()
}

} // verus!
