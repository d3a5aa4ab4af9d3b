//! The playback windowing engine: one session per opened video, holding the
//! time-sorted comment list, a cursor marking the next unconsidered comment,
//! and the last observed playback position.  A playback sample either seeks
//! (relocating the cursor and emitting nothing), pauses (updating only the
//! position), or advances forward, emitting every visible comment whose
//! offset lies in the half-open window `(from_ms, to_ms]`.

use vstd::prelude::*;
use vstd::seq_lib::group_to_multiset_ensures;
use vstd::multiset::group_multiset_axioms;

use crate::domain::CommentEvent;
use crate::domain::CommentEventView;
use crate::domain::comment_views;
use crate::filter::FilterEngine;
use crate::filter::FilterEngineView;
use crate::filter::hides;

verus! {

/// One playback-position sample of a tick batch.
#[derive(Debug, Clone, Copy, PartialEq, Eq, Structural)]
pub struct PlaybackTickSample {
    pub position_ms: i64,
    pub paused: bool,
    pub is_seek: bool,
}

/// Whether a comment sequence is sorted ascending by time offset.
pub open spec fn sorted_by_at(s: Seq<CommentEventView>) -> bool {
    forall|i: int, j: int|
        0 <= i <= j < s.len() ==> (#[trigger] s[i]).at_ms <= (#[trigger] s[j]).at_ms
}

/// How many comments lie at or before position `p`.
pub open spec fn count_le(s: Seq<CommentEventView>, p: int) -> int
    decreases s.len(),
{
    if s.len() == 0 {
        0
    } else {
        count_le(s.drop_last(), p) + if s.last().at_ms <= p {
            1int
        } else {
            0int
        }
    }
}

/// In a sorted sequence, `count_le` is the partition index: everything
/// before it lies at or before `p`, everything from it on lies after.
pub proof fn lemma_count_le_partition(s: Seq<CommentEventView>, p: int)
    requires
        sorted_by_at(s),
    ensures
        0 <= count_le(s, p) <= s.len(),
        forall|i: int| 0 <= i < count_le(s, p) ==> (#[trigger] s[i]).at_ms <= p,
        forall|i: int| count_le(s, p) <= i < s.len() ==> (#[trigger] s[i]).at_ms > p,
    decreases s.len(),
{
    if s.len() > 0 {
        let d = s.drop_last();
        assert(sorted_by_at(d)) by {
            assert(forall|i: int, j: int|
                0 <= i <= j < d.len() ==> (#[trigger] d[i]).at_ms <= (#[trigger] d[j]).at_ms);
        }
        lemma_count_le_partition(d, p);
        let c = count_le(s, p);
        if s.last().at_ms <= p {
            assert(c == count_le(d, p) + 1);
            assert forall|i: int| 0 <= i < c implies (#[trigger] s[i]).at_ms <= p by {
                if i < c - 1 {
                    assert(d[i].at_ms <= p);
                } else if i < s.len() - 1 {
                    assert(d[i].at_ms <= p) by {
                        assert(s[i].at_ms <= s[s.len() - 1].at_ms);
                    }
                }
            }
            assert forall|i: int| c <= i < s.len() implies (#[trigger] s[i]).at_ms > p by {
                assert(d[i] == s[i]) by {
                    assert(i < s.len() - 1 || i == s.len() - 1);
                }
                if i < s.len() - 1 {
                    assert(d[i].at_ms > p);
                } else {
                    // c <= s.len() - 1 yet the last element is counted: every
                    // earlier counted element also lies at or before p, so
                    // c == s.len() is forced, a contradiction.
                    assert(count_le(d, p) <= d.len());
                    assert(s[i].at_ms <= p);
                    assert(count_le(d, p) < d.len());
                    assert(d[count_le(d, p)].at_ms > p);
                    assert(d[count_le(d, p)].at_ms <= s[s.len() - 1].at_ms);
                    assert(false);
                }
            }
        } else {
            assert(c == count_le(d, p));
            assert forall|i: int| 0 <= i < c implies (#[trigger] s[i]).at_ms <= p by {
                assert(c <= d.len());
                assert(d[i].at_ms <= p);
            }
            assert forall|i: int| c <= i < s.len() implies (#[trigger] s[i]).at_ms > p by {
                if i < s.len() - 1 {
                    assert(d[i].at_ms > p);
                }
            }
        }
    }
}

/// Any index with the partition properties equals `count_le`.
pub proof fn lemma_partition_point(s: Seq<CommentEventView>, p: int, c: int)
    requires
        sorted_by_at(s),
        0 <= c <= s.len(),
        forall|i: int| 0 <= i < c ==> (#[trigger] s[i]).at_ms <= p,
        forall|i: int| c <= i < s.len() ==> (#[trigger] s[i]).at_ms > p,
    ensures
        c == count_le(s, p),
{
    lemma_count_le_partition(s, p);
    let n = count_le(s, p);
    if c < n {
        assert(s[c].at_ms <= p);
        assert(s[c].at_ms > p);
    }
    if c > n {
        assert(s[n].at_ms <= p);
        assert(s[n].at_ms > p);
    }
}

/// Whether a comment is emitted by a forward advance over `(from, to]`.
pub open spec fn emit_ok(c: CommentEventView, from: int, to: int, f: FilterEngineView) -> bool {
    from < c.at_ms <= to && !hides(f, c.user_id, c.text)
}

/// The comments emitted by a forward advance over `(from, to]`: those in the
/// window that the filter pipeline does not hide, in sequence order.
pub open spec fn window(s: Seq<CommentEventView>, from: int, to: int, f: FilterEngineView) -> Seq<
    CommentEventView,
>
    decreases s.len(),
{
    if s.len() == 0 {
        Seq::empty()
    } else {
        let rest = window(s.drop_last(), from, to, f);
        if emit_ok(s.last(), from, to, f) {
            rest.push(s.last())
        } else {
            rest
        }
    }
}

/// A window over a range no element satisfies is empty.
pub proof fn lemma_window_all_out(s: Seq<CommentEventView>, from: int, to: int, f: FilterEngineView)
    requires
        forall|i: int| 0 <= i < s.len() ==> !emit_ok(#[trigger] s[i], from, to, f),
    ensures
        window(s, from, to, f) == Seq::<CommentEventView>::empty(),
    decreases s.len(),
{
    if s.len() > 0 {
        let d = s.drop_last();
        assert(forall|i: int| 0 <= i < d.len() ==> !emit_ok(#[trigger] d[i], from, to, f));
        lemma_window_all_out(d, from, to, f);
        assert(!emit_ok(s.last(), from, to, f)) by {
            assert(s[s.len() - 1] == s.last());
        }
    }
}

/// Elements past `i` that all fall outside the window do not change it.
pub proof fn lemma_window_prefix(
    s: Seq<CommentEventView>,
    i: int,
    from: int,
    to: int,
    f: FilterEngineView,
)
    requires
        0 <= i <= s.len(),
        forall|j: int| i <= j < s.len() ==> !emit_ok(#[trigger] s[j], from, to, f),
    ensures
        window(s, from, to, f) == window(s.take(i), from, to, f),
    decreases s.len(),
{
    if s.len() == i {
        assert(s.take(i) =~= s);
    } else {
        let d = s.drop_last();
        assert(!emit_ok(s.last(), from, to, f)) by {
            assert(s[s.len() - 1] == s.last());
        }
        assert(window(s, from, to, f) == window(d, from, to, f));
        lemma_window_prefix(d, i, from, to, f);
        assert(d.take(i) =~= s.take(i));
    }
}

/// Splitting a forward advance at an intermediate position changes nothing:
/// the two half-windows concatenate to the whole window.
pub proof fn lemma_window_split(
    s: Seq<CommentEventView>,
    a: int,
    b: int,
    c: int,
    f: FilterEngineView,
)
    requires
        sorted_by_at(s),
        a <= b <= c,
    ensures
        window(s, a, c, f) == window(s, a, b, f) + window(s, b, c, f),
    decreases s.len(),
{
    if s.len() == 0 {
        assert(window(s, a, c, f) =~= window(s, a, b, f) + window(s, b, c, f));
    } else {
        let d = s.drop_last();
        let x = s.last();
        assert(sorted_by_at(d)) by {
            assert(forall|i: int, j: int|
                0 <= i <= j < d.len() ==> (#[trigger] d[i]).at_ms <= (#[trigger] d[j]).at_ms);
        }
        lemma_window_split(d, a, b, c, f);
        if emit_ok(x, a, b, f) {
            // x lies in (a, b]; everything before it lies at or before b,
            // so the (b, c] half of d is empty.
            assert(forall|i: int|
                0 <= i < d.len() ==> (#[trigger] d[i]).at_ms <= x.at_ms);
            assert(forall|i: int| 0 <= i < d.len() ==> !emit_ok(#[trigger] d[i], b, c, f));
            lemma_window_all_out(d, b, c, f);
            assert(window(s, b, c, f) == window(d, b, c, f));
            assert(window(s, a, c, f) =~= window(s, a, b, f) + window(s, b, c, f));
        } else if emit_ok(x, b, c, f) {
            assert(window(s, a, c, f) == (window(d, a, b, f) + window(d, b, c, f)).push(x));
            assert(window(s, a, b, f) == window(d, a, b, f));
            assert(window(s, b, c, f) == window(d, b, c, f).push(x));
            assert(window(s, a, c, f) =~= window(s, a, b, f) + window(s, b, c, f));
        } else {
            assert(!emit_ok(x, a, c, f));
            assert(window(s, a, c, f) =~= window(s, a, b, f) + window(s, b, c, f));
        }
    }
}

/// The mathematical value of a `Session`.
pub struct SessionView {
    pub comments: Seq<CommentEventView>,
    pub cursor: int,
    pub last_position_ms: int,
}

impl SessionView {
    /// The session invariant: comments sorted by offset, the cursor in
    /// bounds, and everything before the cursor already due at the current
    /// position.
    pub open spec fn wf(self) -> bool {
        &&& sorted_by_at(self.comments)
        &&& 0 <= self.cursor <= self.comments.len()
        &&& forall|i: int|
            0 <= i < self.cursor ==> (#[trigger] self.comments[i]).at_ms <= self.last_position_ms
    }
}

/// Whether a sample relocates the cursor: an explicit seek, or a position
/// behind the last observed one (a rewind).
pub open spec fn is_relocation(s: SessionView, t: PlaybackTickSample) -> bool {
    t.is_seek || (t.position_ms as int) < s.last_position_ms
}

/// The session state after one playback sample.
pub open spec fn tick_next(s: SessionView, t: PlaybackTickSample) -> SessionView {
    if is_relocation(s, t) {
        SessionView {
            comments: s.comments,
            cursor: count_le(s.comments, t.position_ms as int),
            last_position_ms: t.position_ms as int,
        }
    } else if t.paused {
        SessionView {
            comments: s.comments,
            cursor: s.cursor,
            last_position_ms: t.position_ms as int,
        }
    } else {
        SessionView {
            comments: s.comments,
            cursor: count_le(s.comments, t.position_ms as int),
            last_position_ms: t.position_ms as int,
        }
    }
}

/// The comments one playback sample emits.
pub open spec fn tick_emits(s: SessionView, t: PlaybackTickSample, f: FilterEngineView) -> Seq<
    CommentEventView,
> {
    if is_relocation(s, t) || t.paused {
        Seq::empty()
    } else {
        window(s.comments, s.last_position_ms, t.position_ms as int, f)
    }
}

/// The session state after a whole batch of samples, applied in order.
pub open spec fn batch_state(s: SessionView, ts: Seq<PlaybackTickSample>) -> SessionView
    decreases ts.len(),
{
    if ts.len() == 0 {
        s
    } else {
        tick_next(batch_state(s, ts.drop_last()), ts.last())
    }
}

/// The comments a whole batch of samples emits, accumulated in order.
pub open spec fn batch_emits(
    s: SessionView,
    ts: Seq<PlaybackTickSample>,
    f: FilterEngineView,
) -> Seq<CommentEventView>
    decreases ts.len(),
{
    if ts.len() == 0 {
        Seq::empty()
    } else {
        batch_emits(s, ts.drop_last(), f) + tick_emits(
            batch_state(s, ts.drop_last()),
            ts.last(),
            f,
        )
    }
}

/// Whether a batch never seeks and never moves backwards: no sample has the
/// seek flag, the first position is at or past the session's, and positions
/// never decrease.
pub open spec fn monotone_from(s: SessionView, ts: Seq<PlaybackTickSample>) -> bool {
    &&& forall|k: int| 0 <= k < ts.len() ==> !(#[trigger] ts[k]).is_seek
    &&& ts.len() > 0 ==> s.last_position_ms <= ts[0].position_ms as int
    &&& forall|k: int|
        0 < k < ts.len() ==> (#[trigger] ts[k - 1]).position_ms <= (#[trigger] ts[k]).position_ms
}

/// Whether no sample of the batch is paused.
pub open spec fn all_unpaused(ts: Seq<PlaybackTickSample>) -> bool {
    forall|k: int| 0 <= k < ts.len() ==> !(#[trigger] ts[k]).paused
}

/// Every comment a window emits lies inside that window.
pub proof fn lemma_window_members(
    s: Seq<CommentEventView>,
    from: int,
    to: int,
    f: FilterEngineView,
)
    ensures
        forall|i: int|
            0 <= i < window(s, from, to, f).len() ==> from < (#[trigger] window(s, from, to, f)[i]).at_ms
                <= to,
    decreases s.len(),
{
    if s.len() > 0 {
        let d = s.drop_last();
        lemma_window_members(d, from, to, f);
        assert forall|i: int| 0 <= i < window(s, from, to, f).len() implies from < (#[trigger] window(
            s,
            from,
            to,
            f,
        )[i]).at_ms <= to by {
            if i < window(d, from, to, f).len() {
                assert(window(s, from, to, f)[i] == window(d, from, to, f)[i]);
            } else {
                assert(window(s, from, to, f)[i] == s.last());
            }
        }
    }
}

/// Batch-splitting invariance: over a seek-free, rewind-free, unpaused
/// batch, the accumulated emissions equal the single window from the
/// session's position to the batch's final position — however the advance
/// is split into samples — and the final state is the one a single advance
/// to that position produces.
pub proof fn lemma_batch_split_invariance(
    s: SessionView,
    ts: Seq<PlaybackTickSample>,
    f: FilterEngineView,
)
    requires
        s.wf(),
        monotone_from(s, ts),
        all_unpaused(ts),
        ts.len() > 0,
    ensures
        batch_emits(s, ts, f) == window(
            s.comments,
            s.last_position_ms,
            ts.last().position_ms as int,
            f,
        ),
        batch_state(s, ts) == (SessionView {
            comments: s.comments,
            cursor: count_le(s.comments, ts.last().position_ms as int),
            last_position_ms: ts.last().position_ms as int,
        }),
        s.last_position_ms <= ts.last().position_ms as int,
    decreases ts.len(),
{
    let d = ts.drop_last();
    let t = ts.last();
    if ts.len() == 1 {
        assert(batch_state(s, d) == s);
        assert(batch_emits(s, d, f) == Seq::<CommentEventView>::empty());
        assert(batch_emits(s, ts, f) == batch_emits(s, d, f) + tick_emits(s, t, f));
        assert(Seq::<CommentEventView>::empty() + tick_emits(s, t, f) =~= tick_emits(s, t, f));
        assert(!is_relocation(s, t));
    } else {
        assert(monotone_from(s, d)) by {
            assert(forall|k: int| 0 <= k < d.len() ==> !(#[trigger] d[k]).is_seek);
            assert(forall|k: int|
                0 < k < d.len() ==> (#[trigger] d[k - 1]).position_ms <= (#[trigger] d[k]).position_ms);
        }
        assert(all_unpaused(d));
        lemma_batch_split_invariance(s, d, f);
        let mid = d.last().position_ms as int;
        let fin = t.position_ms as int;
        assert(mid <= fin) by {
            assert(ts[ts.len() - 2].position_ms <= ts[ts.len() - 1].position_ms);
            assert(d.last() == ts[ts.len() - 2]);
        }
        let state1 = batch_state(s, d);
        assert(!is_relocation(state1, t));
        assert(tick_emits(state1, t, f) == window(s.comments, mid, fin, f));
        lemma_window_split(s.comments, s.last_position_ms, mid, fin, f);
        assert(batch_emits(s, ts, f) == window(s.comments, s.last_position_ms, mid, f) + window(
            s.comments,
            mid,
            fin,
            f,
        ));
    }
}

/// After seeking to position P, a seek-free, rewind-free run of samples
/// never emits a comment at or before P.
pub proof fn lemma_forward_emits_after(
    s: SessionView,
    ts: Seq<PlaybackTickSample>,
    f: FilterEngineView,
)
    requires
        monotone_from(s, ts),
    ensures
        forall|i: int|
            0 <= i < batch_emits(s, ts, f).len() ==> (#[trigger] batch_emits(s, ts, f)[i]).at_ms
                > s.last_position_ms,
        batch_state(s, ts).last_position_ms >= s.last_position_ms,
        batch_state(s, ts).comments == s.comments,
    decreases ts.len(),
{
    if ts.len() > 0 {
        let d = ts.drop_last();
        let t = ts.last();
        assert(monotone_from(s, d)) by {
            assert(forall|k: int| 0 <= k < d.len() ==> !(#[trigger] d[k]).is_seek);
            assert(forall|k: int|
                0 < k < d.len() ==> (#[trigger] d[k - 1]).position_ms <= (#[trigger] d[k]).position_ms);
        }
        lemma_forward_emits_after(s, d, f);
        let state1 = batch_state(s, d);
        assert(state1.last_position_ms <= t.position_ms as int) by {
            if d.len() == 0 {
                assert(s.last_position_ms <= ts[0].position_ms as int);
            } else {
                // the prior state's position is the previous sample's
                // position, which the batch keeps nondecreasing
                lemma_batch_positions(s, d);
                assert(d.last() == ts[ts.len() - 2]);
                assert(ts[ts.len() - 2].position_ms <= ts[ts.len() - 1].position_ms);
            }
        }
        assert(!is_relocation(state1, t));
        lemma_window_members(state1.comments, state1.last_position_ms, t.position_ms as int, f);
        assert forall|i: int| 0 <= i < batch_emits(s, ts, f).len() implies (#[trigger] batch_emits(
            s,
            ts,
            f,
        )[i]).at_ms > s.last_position_ms by {
            let head = batch_emits(s, d, f);
            let tail = tick_emits(state1, t, f);
            if i < head.len() {
                assert(batch_emits(s, ts, f)[i] == head[i]);
            } else {
                assert(batch_emits(s, ts, f)[i] == tail[i - head.len()]);
                if !t.paused {
                    assert(tail[i - head.len()].at_ms > state1.last_position_ms);
                }
            }
        }
    }
}

/// Seeking to a position and then advancing — without another seek and
/// without rewinding — never re-emits a comment at or before the seek
/// position.
pub proof fn lemma_seek_then_advance_no_reemission(
    s: SessionView,
    seek: PlaybackTickSample,
    ts: Seq<PlaybackTickSample>,
    f: FilterEngineView,
)
    requires
        seek.is_seek,
        monotone_from(tick_next(s, seek), ts),
    ensures
        forall|i: int|
            0 <= i < batch_emits(tick_next(s, seek), ts, f).len() ==> (#[trigger] batch_emits(
                tick_next(s, seek),
                ts,
                f,
            )[i]).at_ms > seek.position_ms as int,
{
    lemma_forward_emits_after(tick_next(s, seek), ts, f);
}

/// Over a seek-free, rewind-free batch, the resulting position is the last
/// sample's position.
pub proof fn lemma_batch_positions(s: SessionView, ts: Seq<PlaybackTickSample>)
    requires
        monotone_from(s, ts),
        ts.len() > 0,
    ensures
        batch_state(s, ts).last_position_ms == ts.last().position_ms as int,
    decreases ts.len(),
{
    let d = ts.drop_last();
    let t = ts.last();
    if ts.len() == 1 {
        assert(batch_state(s, d) == s);
    } else {
        assert(monotone_from(s, d)) by {
            assert(forall|k: int| 0 <= k < d.len() ==> !(#[trigger] d[k]).is_seek);
            assert(forall|k: int|
                0 < k < d.len() ==> (#[trigger] d[k - 1]).position_ms <= (#[trigger] d[k]).position_ms);
        }
        lemma_batch_positions(s, d);
        assert(d.last() == ts[ts.len() - 2]);
        assert(ts[ts.len() - 2].position_ms <= ts[ts.len() - 1].position_ms);
        assert(!is_relocation(batch_state(s, d), t));
    }
}

/// One playback session: the sorted comment list, the cursor marking the
/// next unconsidered comment, and the last observed playback position.
pub struct Session {
    comments: Vec<CommentEvent>,
    cursor: usize,
    last_position_ms: i64,
}

impl View for Session {
    type V = SessionView;

    closed spec fn view(&self) -> SessionView {
        SessionView {
            comments: comment_views(self.comments@),
            cursor: self.cursor as int,
            last_position_ms: self.last_position_ms as int,
        }
    }
}

/// The count of comments in a sorted sequence lying at or before `p`,
/// located by binary search.
#[verifier::loop_isolation(false)]
pub fn cursor_for_position(comments: &[CommentEvent], position_ms: i64) -> (r: usize)
    requires
        sorted_by_at(comment_views(comments@)),
    ensures
        r == count_le(comment_views(comments@), position_ms as int),
{
    let ghost s = comment_views(comments@);
    let p = position_ms;
    let mut lo: usize = 0;
    let mut hi: usize = comments.len();
    while lo < hi
        invariant
            0 <= lo <= hi <= comments@.len(),
            forall|i: int| 0 <= i < lo ==> (#[trigger] s[i]).at_ms <= p as int,
            forall|i: int| hi <= i < s.len() ==> (#[trigger] s[i]).at_ms > p as int,
        decreases hi - lo,
    {
        let mid = lo + (hi - lo) / 2;
        if comments[mid].at_ms <= p {
            lo = mid + 1;
            proof {
                assert(s[mid as int].at_ms <= p as int);
                assert forall|i: int| 0 <= i < lo implies (#[trigger] s[i]).at_ms <= p as int by {
                    assert(s[i].at_ms <= s[mid as int].at_ms);
                }
            }
        } else {
            hi = mid;
            proof {
                assert(s[mid as int].at_ms > p as int);
                assert forall|i: int| hi <= i < s.len() implies (#[trigger] s[i]).at_ms
                    > p as int by {
                    assert(s[mid as int].at_ms <= s[i].at_ms);
                }
            }
        }
    }
    proof {
        lemma_partition_point(s, p as int, lo as int);
    }
    lo
}

/// Inserting an element anywhere adds exactly it to the multiset.
proof fn lemma_insert_to_multiset<A>(s: Seq<A>, i: int, x: A)
    requires
        0 <= i <= s.len(),
    ensures
        s.insert(i, x).to_multiset() == s.to_multiset().insert(x),
{
    broadcast use group_to_multiset_ensures;
    broadcast use group_multiset_axioms;

    let s2 = s.insert(i, x);
    assert(s2.remove(i) =~= s);
    assert(s2[i] == x);
    assert(s2.remove(i).to_multiset() =~= s2.to_multiset().remove(x));
    assert(s2.contains(x));
    assert(s2.to_multiset().count(x) > 0);
    assert(s2.to_multiset() =~= s.to_multiset().insert(x));
}

/// The input comments sorted ascending by offset (a stable insertion sort).
#[verifier::loop_isolation(false)]
fn sort_comments(comments: Vec<CommentEvent>) -> (r: Vec<CommentEvent>)
    ensures
        sorted_by_at(comment_views(r@)),
        comment_views(r@).to_multiset() == comment_views(comments@).to_multiset(),
{
    let ghost input = comment_views(comments@);
    let mut out: Vec<CommentEvent> = Vec::new();
    let mut i: usize = 0;
    proof {
        broadcast use group_to_multiset_ensures;

        assert(comment_views(out@) =~= Seq::<CommentEventView>::empty());
        assert(input.take(0) =~= Seq::<CommentEventView>::empty());
    }
    while i < comments.len()
        invariant
            i <= comments.len(),
            sorted_by_at(comment_views(out@)),
            comment_views(out@).to_multiset() == input.take(i as int).to_multiset(),
        decreases comments.len() - i,
    {
        let c = comments[i].clone();
        let ghost cv = c@;
        let ghost before = comment_views(out@);
        let pos = cursor_for_position(out.as_slice(), c.at_ms);
        proof {
            lemma_count_le_partition(before, cv.at_ms);
        }
        out.insert(pos, c);
        proof {
            broadcast use group_to_multiset_ensures;

            assert(comment_views(out@) =~= before.insert(pos as int, cv));
            lemma_insert_to_multiset(before, pos as int, cv);
            assert(input.take(i + 1).drop_last() =~= input.take(i as int));
            assert(input.take(i + 1) =~= input.take(i as int).push(input[i as int]));
            assert(input[i as int] == cv);
            assert(input.take(i + 1).to_multiset() =~= input.take(i as int).to_multiset().insert(
                cv,
            ));
            let merged = before.insert(pos as int, cv);
            assert forall|a: int, b: int|
                0 <= a <= b < merged.len() implies (#[trigger] merged[a]).at_ms
                <= (#[trigger] merged[b]).at_ms by {
                if a < pos && b < pos {
                    assert(merged[a] == before[a] && merged[b] == before[b]);
                } else if a < pos && b == pos {
                    assert(merged[a] == before[a] && merged[b] == cv);
                    assert(before[a].at_ms <= cv.at_ms);
                } else if a < pos && b > pos {
                    assert(merged[a] == before[a] && merged[b] == before[b - 1]);
                } else if a == pos && b == pos {
                } else if a == pos && b > pos {
                    assert(merged[a] == cv && merged[b] == before[b - 1]);
                    assert(before[b - 1].at_ms > cv.at_ms);
                } else {
                    assert(merged[a] == before[a - 1] && merged[b] == before[b - 1]);
                }
            }
        }
        i += 1;
    }
    proof {
        assert(input.take(comments@.len() as int) =~= input);
    }
    out
}

impl Session {
    /// The session invariant.
    pub open spec fn wf(self) -> bool {
        self@.wf()
    }

    /// Opens a session over a comment list: the comments are sorted
    /// ascending by offset, the cursor starts at the count of comments due
    /// at offset zero, and the observed position starts at zero.
    pub fn new(comments: Vec<CommentEvent>) -> (s: Session)
        ensures
            s.wf(),
            sorted_by_at(s@.comments),
            s@.comments.to_multiset() == comment_views(comments@).to_multiset(),
            s@.cursor == count_le(s@.comments, 0),
            s@.last_position_ms == 0,
    {
        let sorted = sort_comments(comments);
        let cursor = cursor_for_position(sorted.as_slice(), 0);
        proof {
            lemma_count_le_partition(comment_views(sorted@), 0);
        }
        Session { comments: sorted, cursor, last_position_ms: 0 }
    }

    /// The last observed playback position.
    pub fn last_position_ms(&self) -> (r: i64)
        ensures
            r == self@.last_position_ms,
    {
        self.last_position_ms
    }

    /// How many comments the session holds.
    pub fn comment_count(&self) -> (r: usize)
        ensures
            r == self@.comments.len(),
    {
        self.comments.len()
    }

    /// Applies one playback sample.  A seek or rewind relocates the cursor
    /// by binary search and emits nothing; a paused sample only records the
    /// position; a forward advance scans from the cursor and emits every
    /// comment in `(from_ms, to_ms]` the filter pipeline does not hide.
    #[verifier::loop_isolation(false)]
    pub fn apply_playback_tick(
        &mut self,
        tick: &PlaybackTickSample,
        engine: &FilterEngine,
    ) -> (emitted: Vec<CommentEvent>)
        requires
            old(self).wf(),
        ensures
            final(self).wf(),
            final(self)@ == tick_next(old(self)@, *tick),
            comment_views(emitted@) == tick_emits(old(self)@, *tick, engine@),
    {
        if tick.is_seek || tick.position_ms < self.last_position_ms {
            let c = cursor_for_position(self.comments.as_slice(), tick.position_ms);
            self.cursor = c;
            self.last_position_ms = tick.position_ms;
            proof {
                lemma_count_le_partition(self@.comments, tick.position_ms as int);
                assert(comment_views(Seq::<CommentEvent>::empty()) =~= Seq::<
                    CommentEventView,
                >::empty());
            }
            return Vec::new();
        }
        if tick.paused {
            self.last_position_ms = tick.position_ms;
            proof {
                assert forall|i: int| 0 <= i < self@.cursor implies (#[trigger] self@.comments[i]).at_ms
                    <= self@.last_position_ms by {
                    assert(self@.comments[i].at_ms <= old(self)@.last_position_ms);
                }
                assert(comment_views(Seq::<CommentEvent>::empty()) =~= Seq::<
                    CommentEventView,
                >::empty());
            }
            return Vec::new();
        }
        let ghost s = self@.comments;
        let ghost f = engine@;
        let from = self.last_position_ms;
        let to = tick.position_ms;
        let ghost start = self.cursor as int;
        let mut out: Vec<CommentEvent> = Vec::new();
        proof {
            assert(comment_views(out@) =~= Seq::<CommentEventView>::empty());
            lemma_window_all_out(s.take(start), from as int, to as int, f);
        }
        while self.cursor < self.comments.len() && self.comments[self.cursor].at_ms <= to
            invariant
                start <= self.cursor <= self.comments.len(),
                self.comments@ == old(self).comments@,
                self.last_position_ms == old(self).last_position_ms,
                forall|i: int| 0 <= i < self.cursor ==> (#[trigger] s[i]).at_ms <= to as int,
                comment_views(out@) == window(s.take(self.cursor as int), from as int, to as int, f),
            decreases self.comments.len() - self.cursor,
        {
            let idx = self.cursor;
            let ghost before = comment_views(out@);
            proof {
                assert(s.take(idx + 1).drop_last() =~= s.take(idx as int));
                assert(s.take(idx + 1).last() == s[idx as int]);
            }
            if self.comments[idx].at_ms > from && !engine.should_hide(&self.comments[idx]) {
                out.push(self.comments[idx].clone());
                proof {
                    assert(comment_views(out@) =~= before.push(s[idx as int]));
                    assert(emit_ok(s[idx as int], from as int, to as int, f));
                }
            } else {
                proof {
                    assert(!emit_ok(s[idx as int], from as int, to as int, f));
                }
            }
            self.cursor = idx + 1;
        }
        self.last_position_ms = to;
        proof {
            let cur = self.cursor as int;
            assert forall|j: int| cur <= j < s.len() implies !emit_ok(
                #[trigger] s[j],
                from as int,
                to as int,
                f,
            ) by {
                if cur < s.len() {
                    assert(s[cur].at_ms > to as int);
                    assert(s[cur].at_ms <= s[j].at_ms);
                }
            }
            lemma_window_prefix(s, cur, from as int, to as int, f);
            lemma_partition_point(s, to as int, cur);
        }
        out
    }
}

} // verus!
