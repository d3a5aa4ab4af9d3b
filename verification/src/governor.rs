//! The emission governor: post-processes the comments a tick batch
//! accumulated, always coalescing first (dropping exact duplicates beyond
//! each first occurrence) and budgeting second (truncating to the per-tick
//! emission budget), so that budget capacity is never consumed by comments
//! duplicate-removal would have discarded anyway.

use vstd::prelude::*;

use crate::domain::CommentEvent;
use crate::domain::CommentEventView;
use crate::domain::comment_views;

verus! {

/// The identity two comments are considered duplicates under.
pub open spec fn dup_key(c: CommentEventView) -> (int, Seq<char>, Seq<char>) {
    (c.at_ms, c.user_id, c.text)
}

/// Whether some element before index `i` carries the same key as `s[i]`.
pub open spec fn seen_before(s: Seq<CommentEventView>, i: int) -> bool {
    exists|j: int| 0 <= j < i && dup_key(#[trigger] s[j]) == dup_key(s[i])
}

/// Whether some element of `out` carries the same key as `c`.
pub open spec fn covers_key(out: Seq<CommentEventView>, c: CommentEventView) -> bool {
    exists|m: int| 0 <= m < out.len() && dup_key(#[trigger] out[m]) == dup_key(c)
}

/// Whether `x` occurs among the first `n` elements of `s`.
pub open spec fn from_prefix(s: Seq<CommentEventView>, n: int, x: CommentEventView) -> bool {
    exists|j: int| 0 <= j < n && #[trigger] s[j] == x
}

/// The sequence with every exact duplicate beyond its first occurrence
/// removed; the relative order of survivors is preserved.
pub open spec fn coalesce_spec(s: Seq<CommentEventView>) -> Seq<CommentEventView>
    decreases s.len(),
{
    if s.len() == 0 {
        Seq::empty()
    } else {
        let front = coalesce_spec(s.drop_last());
        if seen_before(s, s.len() - 1) {
            front
        } else {
            front.push(s.last())
        }
    }
}

/// Every element the coalesced sequence keeps is an element of the input.
pub proof fn lemma_coalesce_elements(s: Seq<CommentEventView>)
    ensures
        forall|m: int|
            0 <= m < coalesce_spec(s).len() ==> from_prefix(
                s,
                s.len() as int,
                #[trigger] coalesce_spec(s)[m],
            ),
    decreases s.len(),
{
    if s.len() > 0 {
        let d = s.drop_last();
        lemma_coalesce_elements(d);
        assert forall|m: int| 0 <= m < coalesce_spec(s).len() implies from_prefix(
            s,
            s.len() as int,
            #[trigger] coalesce_spec(s)[m],
        ) by {
            if m < coalesce_spec(d).len() {
                assert(coalesce_spec(s)[m] == coalesce_spec(d)[m]);
                assert(from_prefix(d, d.len() as int, coalesce_spec(d)[m]));
                let j = choose|j: int| 0 <= j < d.len() && #[trigger] d[j] == coalesce_spec(d)[m];
                assert(s[j] == coalesce_spec(s)[m]);
            } else {
                assert(coalesce_spec(s)[m] == s[s.len() - 1]);
            }
        }
    }
}

/// Every key of the input survives in the coalesced sequence.
pub proof fn lemma_coalesce_covers(s: Seq<CommentEventView>)
    ensures
        forall|i: int| 0 <= i < s.len() ==> covers_key(coalesce_spec(s), #[trigger] s[i]),
    decreases s.len(),
{
    if s.len() > 0 {
        let d = s.drop_last();
        lemma_coalesce_covers(d);
        assert forall|i: int| 0 <= i < s.len() implies covers_key(
            coalesce_spec(s),
            #[trigger] s[i],
        ) by {
            if i < s.len() - 1 {
                assert(covers_key(coalesce_spec(d), d[i]));
                let m = choose|m: int|
                    0 <= m < coalesce_spec(d).len() && dup_key(#[trigger] coalesce_spec(d)[m])
                        == dup_key(d[i]);
                assert(coalesce_spec(s)[m] == coalesce_spec(d)[m]);
                assert(dup_key(coalesce_spec(s)[m]) == dup_key(s[i]));
            } else {
                if seen_before(s, s.len() - 1) {
                    let j = choose|j: int|
                        0 <= j < s.len() - 1 && dup_key(#[trigger] s[j]) == dup_key(s[s.len() - 1]);
                    assert(covers_key(coalesce_spec(d), d[j]));
                    let m = choose|m: int|
                        0 <= m < coalesce_spec(d).len() && dup_key(#[trigger] coalesce_spec(d)[m])
                            == dup_key(d[j]);
                    assert(coalesce_spec(s)[m] == coalesce_spec(d)[m]);
                    assert(dup_key(coalesce_spec(s)[m]) == dup_key(s[i]));
                } else {
                    let m = coalesce_spec(s).len() - 1;
                    assert(coalesce_spec(s)[m] == s[s.len() - 1]);
                }
            }
        }
    }
}

/// No two survivors of coalescing share a key.
pub proof fn lemma_coalesce_distinct(s: Seq<CommentEventView>)
    ensures
        forall|m: int, n: int|
            0 <= m < n < coalesce_spec(s).len() ==> dup_key(#[trigger] coalesce_spec(s)[m])
                != dup_key(#[trigger] coalesce_spec(s)[n]),
    decreases s.len(),
{
    if s.len() > 0 {
        let d = s.drop_last();
        lemma_coalesce_distinct(d);
        lemma_coalesce_elements(d);
        let out = coalesce_spec(s);
        assert forall|m: int, n: int| 0 <= m < n < out.len() implies dup_key(#[trigger] out[m])
            != dup_key(#[trigger] out[n]) by {
            if n < coalesce_spec(d).len() {
                assert(out[m] == coalesce_spec(d)[m] && out[n] == coalesce_spec(d)[n]);
            } else {
                // out ends with the (unseen) last element of s; each earlier
                // survivor is an element of the strict prefix, so a shared
                // key would contradict the last element being unseen.
                assert(!seen_before(s, s.len() - 1));
                assert(out[n] == s[s.len() - 1]);
                assert(out[m] == coalesce_spec(d)[m]);
                assert(from_prefix(d, d.len() as int, coalesce_spec(d)[m]));
                let i = choose|i: int| 0 <= i < d.len() && #[trigger] d[i] == coalesce_spec(d)[m];
                if dup_key(out[m]) == dup_key(out[n]) {
                    assert(dup_key(s[i]) == dup_key(s[s.len() - 1]));
                    assert(seen_before(s, s.len() - 1));
                }
            }
        }
    }
}

/// Whether some already-kept comment carries the same duplicate key.
#[verifier::loop_isolation(false)]
fn has_dup_key(out: &Vec<CommentEvent>, c: &CommentEvent) -> (r: bool)
    ensures
        r == covers_key(comment_views(out@), c@),
{
    let mut m: usize = 0;
    while m < out.len()
        invariant
            m <= out.len(),
            forall|k: int|
                0 <= k < m ==> dup_key(#[trigger] comment_views(out@)[k]) != dup_key(c@),
        decreases out.len() - m,
    {
        if out[m].at_ms == c.at_ms && out[m].user_id.eq(&c.user_id) && out[m].text.eq(&c.text) {
            assert(dup_key(comment_views(out@)[m as int]) == dup_key(c@));
            return true;
        }
        assert(dup_key(comment_views(out@)[m as int]) != dup_key(c@));
        m += 1;
    }
    proof {
        if covers_key(comment_views(out@), c@) {
            let k = choose|k: int|
                0 <= k < comment_views(out@).len() && dup_key(
                    #[trigger] comment_views(out@)[k],
                ) == dup_key(c@);
            assert(false);
        }
    }
    false
}

/// Removes exact duplicates — same `(at_ms, user_id, text)` — beyond each
/// first occurrence, preserving the survivors' relative order.  The second
/// result is how many comments were dropped.
#[verifier::loop_isolation(false)]
#[verifier::rlimit(80)]
pub fn coalesce_emitted_comments(comments: Vec<CommentEvent>) -> (r: (Vec<CommentEvent>, usize))
    ensures
        comment_views(r.0@) == coalesce_spec(comment_views(comments@)),
        r.1 == comments@.len() - r.0@.len(),
        r.0@.len() <= comments@.len(),
{
    let ghost s = comment_views(comments@);
    let mut out: Vec<CommentEvent> = Vec::new();
    let mut dropped: usize = 0;
    let mut i: usize = 0;
    proof {
        assert(comment_views(out@) =~= Seq::<CommentEventView>::empty());
        assert(s.take(0) =~= Seq::<CommentEventView>::empty());
    }
    while i < comments.len()
        invariant
            i <= comments.len(),
            out@.len() <= i,
            dropped == i - out@.len(),
            comment_views(out@) == coalesce_spec(s.take(i as int)),
            forall|m: int|
                0 <= m < out@.len() ==> from_prefix(
                    s,
                    i as int,
                    #[trigger] comment_views(out@)[m],
                ),
            forall|j: int| 0 <= j < i ==> covers_key(comment_views(out@), #[trigger] s[j]),
        decreases comments.len() - i,
    {
        let c = &comments[i];
        let ghost cv = s[i as int];
        let ghost before = comment_views(out@);
        let ghost prefix = s.take(i as int);
        let ghost prefix1 = s.take(i + 1);
        proof {
            assert(prefix1.drop_last() =~= prefix);
            assert(prefix1.last() == cv);
            assert(c@ == cv);
        }
        if has_dup_key(&out, c) {
            dropped += 1;
            proof {
                let m = choose|m: int|
                    0 <= m < before.len() && dup_key(#[trigger] before[m]) == dup_key(cv);
                assert(from_prefix(s, i as int, before[m]));
                let j = choose|j: int| 0 <= j < i && #[trigger] s[j] == before[m];
                assert(dup_key(prefix1[j]) == dup_key(prefix1[i as int]));
                assert(seen_before(prefix1, i as int));
                assert(comment_views(out@) == coalesce_spec(prefix1));
                assert forall|j2: int| 0 <= j2 < i + 1 implies covers_key(
                    comment_views(out@),
                    #[trigger] s[j2],
                ) by {
                    if j2 == i {
                        assert(dup_key(before[m]) == dup_key(s[j2]));
                    }
                }
            }
        } else {
            out.push(c.clone());
            proof {
                assert(comment_views(out@) =~= before.push(cv));
                if seen_before(prefix1, i as int) {
                    let j = choose|j: int|
                        0 <= j < i && dup_key(#[trigger] prefix1[j]) == dup_key(prefix1[i as int]);
                    assert(covers_key(before, s[j]));
                    let m = choose|m: int|
                        0 <= m < before.len() && dup_key(#[trigger] before[m]) == dup_key(s[j]);
                    assert(dup_key(before[m]) == dup_key(cv));
                    assert(covers_key(before, cv));
                    assert(false);
                }
                assert(coalesce_spec(prefix1) == coalesce_spec(prefix).push(cv));
                assert forall|m: int| 0 <= m < out@.len() implies from_prefix(
                    s,
                    i + 1,
                    #[trigger] comment_views(out@)[m],
                ) by {
                    if m < before.len() {
                        assert(from_prefix(s, i as int, before[m]));
                        let j = choose|j: int| 0 <= j < i && #[trigger] s[j] == before[m];
                        assert(comment_views(out@)[m] == s[j]);
                    } else {
                        assert(comment_views(out@)[m] == s[i as int]);
                    }
                }
                assert forall|j: int| 0 <= j < i + 1 implies covers_key(
                    comment_views(out@),
                    #[trigger] s[j],
                ) by {
                    if j < i {
                        assert(covers_key(before, s[j]));
                        let m = choose|m: int|
                            0 <= m < before.len() && dup_key(#[trigger] before[m]) == dup_key(
                                s[j],
                            );
                        assert(comment_views(out@)[m] == before[m]);
                        assert(dup_key(comment_views(out@)[m]) == dup_key(s[j]));
                    } else {
                        assert(dup_key(comment_views(out@)[out@.len() - 1]) == dup_key(s[j]));
                    }
                }
            }
        }
        i += 1;
    }
    proof {
        assert(s.take(comments@.len() as int) =~= s);
    }
    (out, dropped)
}

/// The surviving list truncated to the budget (0 means unbounded).
pub open spec fn budget_keep(s: Seq<CommentEventView>, max: int) -> Seq<CommentEventView> {
    if max == 0 || s.len() <= max {
        s
    } else {
        s.take(max)
    }
}

/// Truncates the list to the emission budget when it exceeds it, keeping
/// the earliest-scanned entries; the second result counts the excess and
/// the third flags that the budget was exceeded.
pub fn apply_emit_budget(comments: Vec<CommentEvent>, max_emit_per_tick: usize) -> (r: (
    Vec<CommentEvent>,
    usize,
    bool,
))
    ensures
        comment_views(r.0@) == budget_keep(comment_views(comments@), max_emit_per_tick as int),
        r.2 == (max_emit_per_tick > 0 && comments@.len() > max_emit_per_tick),
        r.1 == if max_emit_per_tick > 0 && comments@.len() > max_emit_per_tick {
            comments@.len() - max_emit_per_tick
        } else {
            0int
        },
{
    if max_emit_per_tick == 0 || comments.len() <= max_emit_per_tick {
        return (comments, 0, false);
    }
    let ghost s = comment_views(comments@);
    let dropped = comments.len() - max_emit_per_tick;
    let mut kept = comments;
    kept.truncate(max_emit_per_tick);
    proof {
        assert(comment_views(kept@) =~= s.take(max_emit_per_tick as int));
    }
    (kept, dropped, true)
}

/// Composing the governor's two stages: coalescing keeps exactly one
/// survivor per distinct `(at_ms, user_id, text)` key — survivors are
/// pairwise distinct by key, every input key is covered, and the count
/// removed is the input length minus the survivor count — and budgeting
/// then keeps the first `max` survivors, dropping `survivors - max`, when
/// a nonzero budget is exceeded.
pub proof fn lemma_coalesce_then_budget(s: Seq<CommentEventView>, max: int)
    ensures
        forall|m: int, n: int|
            0 <= m < n < coalesce_spec(s).len() ==> dup_key(#[trigger] coalesce_spec(s)[m])
                != dup_key(#[trigger] coalesce_spec(s)[n]),
        forall|i: int| 0 <= i < s.len() ==> covers_key(coalesce_spec(s), #[trigger] s[i]),
        max > 0 && coalesce_spec(s).len() > max ==> budget_keep(coalesce_spec(s), max)
            == coalesce_spec(s).take(max) && budget_keep(coalesce_spec(s), max).len() == max,
        max == 0 || coalesce_spec(s).len() <= max ==> budget_keep(coalesce_spec(s), max)
            == coalesce_spec(s),
{
    lemma_coalesce_distinct(s);
    lemma_coalesce_covers(s);
}

} // verus!
