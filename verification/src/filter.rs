//! The ordered filter pipeline: a set of blocked (NG) users checked first,
//! then a list of regular-expression filters tested against the comment text
//! in insertion order.  `should_hide` is a pure function of the current state.

use vstd::prelude::*;

use crate::domain::CommentEvent;

verus! {

/// Why a filter mutation was rejected.
#[derive(Debug)]
pub enum FilterError {
    InvalidRegex(String),
}

/// One stored regular-expression filter.  The id is assigned by the
/// surrounding persistence layer and is unique; the creation timestamp is
/// carried as RFC 3339 text and never interpreted here.
#[derive(Debug)]
pub struct RegexFilterEntry {
    pub filter_id: i64,
    pub pattern: String,
    pub created_at: String,
}

/// The mathematical value of a `RegexFilterEntry`.
pub struct RegexFilterEntryView {
    pub filter_id: int,
    pub pattern: Seq<char>,
    pub created_at: Seq<char>,
}

impl View for RegexFilterEntry {
    type V = RegexFilterEntryView;

    open spec fn view(&self) -> RegexFilterEntryView {
        RegexFilterEntryView {
            filter_id: self.filter_id as int,
            pattern: self.pattern@,
            created_at: self.created_at@,
        }
    }
}

impl Clone for RegexFilterEntry {
    fn clone(&self) -> (r: Self)
        ensures
            r@ == self@,
    {
        RegexFilterEntry {
            filter_id: self.filter_id,
            pattern: self.pattern.clone(),
            created_at: self.created_at.clone(),
        }
    }
}

/// Whether a pattern is accepted by the regular-expression compiler.
pub uninterp spec fn pattern_ok(pattern: Seq<char>) -> bool;

/// Whether a (valid) pattern matches somewhere in a text.
pub uninterp spec fn regex_matches(pattern: Seq<char>, text: Seq<char>) -> bool;

/// Relies on `regex::Regex::new`: whether compilation succeeds depends on
/// the pattern alone; `pattern_ok` names that outcome.
#[verifier::external_body]
fn compile_check(pattern: &str) -> (r: bool)
    ensures
        r == pattern_ok(pattern@),
{
    regex::Regex::new(pattern).is_ok()
}

/// Relies on `regex::Regex::new` and `regex::Regex::is_match`: for a pattern
/// that compiles, whether the compiled expression matches somewhere in the
/// text depends on the pattern and the text alone; `regex_matches` names
/// that outcome.  For a pattern that does not compile this returns `false`.
#[verifier::external_body]
fn regex_is_match(pattern: &str, text: &str) -> (r: bool)
    ensures
        r == (pattern_ok(pattern@) && regex_matches(pattern@, text@)),
{
    match regex::Regex::new(pattern) {
        Ok(re) => re.is_match(text),
        Err(_) => false,
    }
}

/// The mathematical value of a `FilterEngine`: the blocked users in
/// insertion order and the regex filters in insertion order.
pub struct FilterEngineView {
    pub ng_users: Seq<Seq<char>>,
    pub filters: Seq<RegexFilterEntryView>,
}

impl FilterEngineView {
    /// No user id is listed twice.
    pub open spec fn ng_users_unique(self) -> bool {
        forall|i: int, j: int|
            0 <= i < j < self.ng_users.len() ==> self.ng_users[i] != self.ng_users[j]
    }
}

/// Whether the pipeline hides a comment by the given user with the given
/// text: the user is blocked, or some stored pattern (necessarily one that
/// compiled) matches the text.
pub open spec fn hides(f: FilterEngineView, user_id: Seq<char>, text: Seq<char>) -> bool {
    f.ng_users.contains(user_id) || exists|i: int|
        0 <= i < f.filters.len() && #[trigger] pattern_ok(f.filters[i].pattern)
            && regex_matches(f.filters[i].pattern, text)
}

/// `should_hide` is monotonic in the blocked-user set: blocking one more
/// user hides everything that was hidden before.
pub proof fn lemma_hides_monotonic_add_ng(
    f: FilterEngineView,
    added: Seq<char>,
    user_id: Seq<char>,
    text: Seq<char>,
)
    requires
        hides(f, user_id, text),
    ensures
        hides(
            FilterEngineView { ng_users: f.ng_users.push(added), filters: f.filters },
            user_id,
            text,
        ),
{
    let g = FilterEngineView { ng_users: f.ng_users.push(added), filters: f.filters };
    if f.ng_users.contains(user_id) {
        let k = choose|k: int| 0 <= k < f.ng_users.len() && f.ng_users[k] == user_id;
        assert(g.ng_users[k] == user_id);
        assert(g.ng_users.contains(user_id));
    } else {
        let i = choose|i: int|
            0 <= i < f.filters.len() && #[trigger] pattern_ok(f.filters[i].pattern)
                && regex_matches(f.filters[i].pattern, text);
        assert(pattern_ok(g.filters[i].pattern) && regex_matches(g.filters[i].pattern, text));
    }
}

/// `should_hide` is monotonic in the filter list: adding one more regex
/// filter hides everything that was hidden before.
pub proof fn lemma_hides_monotonic_add_filter(
    f: FilterEngineView,
    added: RegexFilterEntryView,
    user_id: Seq<char>,
    text: Seq<char>,
)
    requires
        hides(f, user_id, text),
    ensures
        hides(
            FilterEngineView { ng_users: f.ng_users, filters: f.filters.push(added) },
            user_id,
            text,
        ),
{
    let g = FilterEngineView { ng_users: f.ng_users, filters: f.filters.push(added) };
    if f.ng_users.contains(user_id) {
        let k = choose|k: int| 0 <= k < f.ng_users.len() && f.ng_users[k] == user_id;
        assert(g.ng_users[k] == user_id);
        assert(g.ng_users.contains(user_id));
    } else {
        let i = choose|i: int|
            0 <= i < f.filters.len() && #[trigger] pattern_ok(f.filters[i].pattern)
                && regex_matches(f.filters[i].pattern, text);
        assert(g.filters[i] == f.filters[i]);
        assert(pattern_ok(g.filters[i].pattern) && regex_matches(g.filters[i].pattern, text));
    }
}

/// Filtering a sequence with pairwise-distinct elements keeps them
/// pairwise distinct.
proof fn lemma_filter_keeps_distinct<A>(s: Seq<A>, pred: spec_fn(A) -> bool)
    requires
        forall|i: int, j: int| 0 <= i < j < s.len() ==> s[i] != s[j],
    ensures
        forall|i: int, j: int|
            0 <= i < j < s.filter(pred).len() ==> s.filter(pred)[i] != s.filter(pred)[j],
    decreases s.len(),
{
    reveal(Seq::filter);
    if s.len() > 0 {
        let rest = s.drop_last();
        let last = s.last();
        lemma_filter_keeps_distinct(rest, pred);
        if pred(last) {
            if rest.filter(pred).contains(last) {
                rest.lemma_filter_contains_rev(pred, last);
                let k = choose|k: int| 0 <= k < rest.len() && rest[k] == last;
                assert(s[k] == s[s.len() - 1]);
            }
            assert forall|i: int, j: int|
                0 <= i < j < s.filter(pred).len() implies s.filter(pred)[i] != s.filter(
                pred,
            )[j] by {
                if j < s.filter(pred).len() - 1 {
                    assert(s.filter(pred)[i] == rest.filter(pred)[i]);
                    assert(s.filter(pred)[j] == rest.filter(pred)[j]);
                } else {
                    assert(s.filter(pred)[j] == last);
                    assert(rest.filter(pred).contains(rest.filter(pred)[i]));
                }
            }
        }
    }
}

/// The stateful, ordered block-rule evaluator.
pub struct FilterEngine {
    ng_users: Vec<String>,
    regex_filters: Vec<RegexFilterEntry>,
}

/// Keeping every user id other than `user_id`.
pub open spec fn not_user_pred(user_id: Seq<char>) -> spec_fn(Seq<char>) -> bool {
    |u: Seq<char>| u != user_id
}

/// The blocked-user list with every occurrence of `user_id` removed.
pub open spec fn without_user(ng: Seq<Seq<char>>, user_id: Seq<char>) -> Seq<Seq<char>> {
    ng.filter(not_user_pred(user_id))
}

/// Keeping every filter whose id is not `filter_id`.
pub open spec fn not_filter_id_pred(filter_id: int) -> spec_fn(RegexFilterEntryView) -> bool {
    |f: RegexFilterEntryView| f.filter_id != filter_id
}

/// The filter list with every entry stored under `filter_id` removed.
pub open spec fn without_filter_id(
    fs: Seq<RegexFilterEntryView>,
    filter_id: int,
) -> Seq<RegexFilterEntryView> {
    fs.filter(not_filter_id_pred(filter_id))
}

/// Whether some filter is stored under `filter_id`.
pub open spec fn has_filter_id(fs: Seq<RegexFilterEntryView>, filter_id: int) -> bool {
    exists|i: int| 0 <= i < fs.len() && (#[trigger] fs[i]).filter_id == filter_id
}

/// The views of a sequence of strings.
pub open spec fn string_views(s: Seq<String>) -> Seq<Seq<char>> {
    s.map_values(|x: String| x@)
}

/// The views of a sequence of filter entries.
pub open spec fn filter_views(s: Seq<RegexFilterEntry>) -> Seq<RegexFilterEntryView> {
    s.map_values(|x: RegexFilterEntry| x@)
}

impl View for FilterEngine {
    type V = FilterEngineView;

    closed spec fn view(&self) -> FilterEngineView {
        FilterEngineView {
            ng_users: string_views(self.ng_users@),
            filters: filter_views(self.regex_filters@),
        }
    }
}

impl FilterEngine {
    /// The engine never stores the same user id twice.
    pub open spec fn wf(self) -> bool {
        self@.ng_users_unique()
    }

    /// Builds an engine from persisted state: user ids are deduplicated,
    /// and every stored pattern must still compile.
    #[verifier::loop_isolation(false)]
    pub fn new(ng_users: Vec<String>, regex_filters: Vec<RegexFilterEntry>) -> (r: Result<
        FilterEngine,
        FilterError,
    >)
        ensures
            r is Ok <==> (forall|i: int|
                0 <= i < regex_filters@.len() ==> pattern_ok(
                    #[trigger] regex_filters@[i].pattern@,
                )),
            r is Ok ==> {
                let engine = r->Ok_0;
                &&& engine.wf()
                &&& engine@.filters == filter_views(regex_filters@)
                &&& forall|u: Seq<char>|
                    engine@.ng_users.contains(u) <==> string_views(ng_users@).contains(u)
            },
    {
        let mut engine = FilterEngine { ng_users: Vec::new(), regex_filters: Vec::new() };
        assert(engine@.ng_users =~= Seq::<Seq<char>>::empty());
        assert(engine@.filters =~= Seq::<RegexFilterEntryView>::empty());
        let mut i: usize = 0;
        while i < ng_users.len()
            invariant
                i <= ng_users.len(),
                engine.wf(),
                engine@.filters.len() == 0,
                forall|u: Seq<char>|
                    engine@.ng_users.contains(u) <==> string_views(ng_users@.take(i as int)).contains(
                        u,
                    ),
            decreases ng_users.len() - i,
        {
            let ghost prev = engine@.ng_users;
            engine.add_ng_user(ng_users[i].as_str());
            proof {
                let fresh = string_views(ng_users@.take(i + 1));
                assert(fresh[i as int] == ng_users@[i as int]@);
                assert forall|u: Seq<char>|
                    engine@.ng_users.contains(u) <==> fresh.contains(u) by {
                    if fresh.contains(u) {
                        let k = choose|k: int| 0 <= k < fresh.len() && fresh[k] == u;
                        if k < i {
                            assert(string_views(ng_users@.take(i as int))[k] == u);
                            assert(string_views(ng_users@.take(i as int)).contains(u));
                        } else {
                            assert(u == ng_users@[i as int]@);
                        }
                        if prev.contains(u) {
                            let k2 = choose|k2: int|
                                0 <= k2 < prev.len() && #[trigger] prev[k2] == u;
                            assert(engine@.ng_users[k2] == u);
                            assert(engine@.ng_users.contains(u));
                        } else {
                            assert(engine@.ng_users.last() == ng_users@[i as int]@);
                        }
                    }
                    if engine@.ng_users.contains(u) {
                        if prev.contains(u) {
                            let k = choose|k: int|
                                0 <= k < string_views(ng_users@.take(i as int)).len()
                                    && string_views(ng_users@.take(i as int))[k] == u;
                            assert(fresh[k] == u);
                        } else {
                            assert(u == ng_users@[i as int]@);
                            assert(fresh[i as int] == u);
                        }
                    }
                }
            }
            i += 1;
        }
        proof {
            assert(ng_users@.take(ng_users@.len() as int) =~= ng_users@);
        }
        let mut j: usize = 0;
        while j < regex_filters.len()
            invariant
                j <= regex_filters.len(),
                engine.wf(),
                engine@.filters =~= filter_views(regex_filters@.take(j as int)),
                forall|u: Seq<char>|
                    engine@.ng_users.contains(u) <==> string_views(ng_users@).contains(u),
                forall|k: int| 0 <= k < j ==> pattern_ok(#[trigger] regex_filters@[k].pattern@),
            decreases regex_filters.len() - j,
        {
            let entry = regex_filters[j].clone();
            let ghost entry_view = entry@;
            let ghost before = engine@.filters;
            match engine.add_regex_filter(entry) {
                Ok(()) => {},
                Err(e) => {
                    return Err(e);
                },
            }
            proof {
                assert(engine@.filters =~= before.push(entry_view));
                assert(engine@.filters =~= filter_views(regex_filters@.take(j + 1)));
            }
            j += 1;
        }
        proof {
            assert(regex_filters@.take(regex_filters@.len() as int) =~= regex_filters@);
            assert(engine@.filters =~= filter_views(regex_filters@));
        }
        Ok(engine)
    }

    /// A stable snapshot of the blocked user ids, in insertion order.
    #[verifier::loop_isolation(false)]
    pub fn list_ng_users(&self) -> (r: Vec<String>)
        ensures
            string_views(r@) == self@.ng_users,
    {
        let v = &self.ng_users;
        let mut out: Vec<String> = Vec::new();
        let mut i: usize = 0;
        while i < v.len()
            invariant
                i <= v.len(),
                out@.len() == i,
                forall|k: int| 0 <= k < i ==> (#[trigger] out@[k])@ == v@[k]@,
            decreases v.len() - i,
        {
            out.push(v[i].clone());
            i += 1;
        }
        proof {
            assert forall|k: int| 0 <= k < out@.len() implies string_views(out@)[k]
                == self@.ng_users[k] by {
                assert(out@[k]@ == v@[k]@);
            }
            assert(string_views(out@) =~= self@.ng_users);
        }
        out
    }

    /// A snapshot of the regex filters, in insertion order.
    #[verifier::loop_isolation(false)]
    pub fn list_regex_filters(&self) -> (r: Vec<RegexFilterEntry>)
        ensures
            filter_views(r@) == self@.filters,
    {
        let v = &self.regex_filters;
        let mut out: Vec<RegexFilterEntry> = Vec::new();
        let mut i: usize = 0;
        while i < v.len()
            invariant
                i <= v.len(),
                out@.len() == i,
                forall|k: int| 0 <= k < i ==> (#[trigger] out@[k])@ == v@[k]@,
            decreases v.len() - i,
        {
            out.push(v[i].clone());
            i += 1;
        }
        proof {
            assert forall|k: int| 0 <= k < out@.len() implies filter_views(out@)[k]
                == self@.filters[k] by {
                assert(out@[k]@ == v@[k]@);
            }
            assert(filter_views(out@) =~= self@.filters);
        }
        out
    }

    /// Whether a user id is currently blocked.
    #[verifier::loop_isolation(false)]
    fn contains_ng_user(&self, user_id: &str) -> (r: bool)
        ensures
            r == self@.ng_users.contains(user_id@),
    {
        let probe = user_id.to_owned();
        let mut i: usize = 0;
        while i < self.ng_users.len()
            invariant
                i <= self.ng_users.len(),
                probe@ == user_id@,
                forall|k: int| 0 <= k < i ==> self@.ng_users[k] != user_id@,
            decreases self.ng_users.len() - i,
        {
            if self.ng_users[i].eq(&probe) {
                assert(self@.ng_users[i as int] == user_id@);
                return true;
            }
            i += 1;
        }
        false
    }

    /// Blocks a user.  Idempotent; the result says whether the id was newly
    /// inserted, which drives undo-token issuance upstream.
    pub fn add_ng_user(&mut self, user_id: &str) -> (newly: bool)
        requires
            old(self).wf(),
        ensures
            final(self).wf(),
            newly == !old(self)@.ng_users.contains(user_id@),
            newly ==> final(self)@.ng_users == old(self)@.ng_users.push(user_id@),
            !newly ==> final(self)@.ng_users == old(self)@.ng_users,
            final(self)@.filters == old(self)@.filters,
    {
        if self.contains_ng_user(user_id) {
            false
        } else {
            let ghost prev = string_views(self.ng_users@);
            let ghost prev_filters = filter_views(self.regex_filters@);
            self.ng_users.push(user_id.to_owned());
            proof {
                assert(string_views(self.ng_users@) =~= prev.push(user_id@));
                assert(filter_views(self.regex_filters@) == prev_filters);
            }
            true
        }
    }

    /// Unblocks a user.  The result says whether the id was present.
    #[verifier::loop_isolation(false)]
    pub fn remove_ng_user(&mut self, user_id: &str) -> (removed: bool)
        requires
            old(self).wf(),
        ensures
            final(self).wf(),
            removed == old(self)@.ng_users.contains(user_id@),
            final(self)@.ng_users == without_user(old(self)@.ng_users, user_id@),
            final(self)@.filters == old(self)@.filters,
    {
        let ghost orig = string_views(self.ng_users@);
        let ghost pred = not_user_pred(user_id@);
        let probe = user_id.to_owned();
        let mut kept: Vec<String> = Vec::new();
        let mut found = false;
        let mut i: usize = 0;
        while i < self.ng_users.len()
            invariant
                i <= self.ng_users.len(),
                string_views(kept@) =~= orig.take(i as int).filter(pred),
                found == orig.take(i as int).contains(user_id@),
            decreases self.ng_users.len() - i,
        {
            proof {
                reveal(Seq::filter);
                assert(orig.take(i + 1).drop_last() =~= orig.take(i as int));
                assert(orig.take(i + 1).last() == orig[i as int]);
            }
            if self.ng_users[i].eq(&probe) {
                assert(orig[i as int] == user_id@);
                found = true;
                proof {
                    assert(orig.take(i + 1)[i as int] == user_id@);
                }
            } else {
                let ghost prev_kept = string_views(kept@);
                kept.push(self.ng_users[i].clone());
                proof {
                    assert(string_views(kept@) =~= prev_kept.push(orig[i as int]));
                }
            }
            proof {
                if orig.take(i + 1).contains(user_id@) && orig[i as int] != user_id@ {
                    let k = choose|k: int|
                        0 <= k < i + 1 && #[trigger] orig.take(i + 1)[k] == user_id@;
                    assert(orig.take(i as int)[k] == user_id@);
                }
            }
            i += 1;
        }
        proof {
            assert(orig.take(orig.len() as int) =~= orig);
        }
        let ghost old_filters = filter_views(self.regex_filters@);
        self.ng_users = kept;
        proof {
            assert(filter_views(self.regex_filters@) == old_filters);
            assert(string_views(self.ng_users@) == orig.filter(pred));
            assert(orig == old(self)@.ng_users);
            assert(forall|a: int, b: int| 0 <= a < b < orig.len() ==> orig[a] != orig[b]);
            lemma_filter_keeps_distinct(orig, pred);
            assert(self@.ng_users_unique());
        }
        found
    }

    /// Adds a regex filter.  The pattern is checked against the compiler
    /// first; a pattern that does not compile is rejected with
    /// `InvalidRegex` and nothing changes.
    pub fn add_regex_filter(&mut self, filter: RegexFilterEntry) -> (r: Result<(), FilterError>)
        requires
            old(self).wf(),
        ensures
            final(self).wf(),
            r is Ok <==> pattern_ok(filter@.pattern),
            r is Ok ==> final(self)@.filters == old(self)@.filters.push(filter@),
            r is Err ==> final(self)@ == old(self)@,
            final(self)@.ng_users == old(self)@.ng_users,
    {
        if !compile_check(filter.pattern.as_str()) {
            return Err(FilterError::InvalidRegex(filter.pattern));
        }
        let ghost prev = filter_views(self.regex_filters@);
        let ghost prev_ng = string_views(self.ng_users@);
        let ghost fview = filter@;
        self.regex_filters.push(filter);
        proof {
            assert(filter_views(self.regex_filters@) =~= prev.push(fview));
            assert(string_views(self.ng_users@) == prev_ng);
            assert(prev_ng == old(self)@.ng_users);
            assert(forall|a: int, b: int|
                0 <= a < b < prev_ng.len() ==> prev_ng[a] != prev_ng[b]);
            assert(self@.ng_users_unique());
        }
        Ok(())
    }

    /// Removes every filter stored under the given id.  The result says
    /// whether any was present.
    #[verifier::loop_isolation(false)]
    pub fn remove_regex_filter(&mut self, filter_id: i64) -> (removed: bool)
        requires
            old(self).wf(),
        ensures
            final(self).wf(),
            removed == has_filter_id(old(self)@.filters, filter_id as int),
            final(self)@.filters == without_filter_id(old(self)@.filters, filter_id as int),
            final(self)@.ng_users == old(self)@.ng_users,
    {
        let ghost orig = filter_views(self.regex_filters@);
        let ghost pred = not_filter_id_pred(filter_id as int);
        let mut kept: Vec<RegexFilterEntry> = Vec::new();
        let mut found = false;
        let mut i: usize = 0;
        while i < self.regex_filters.len()
            invariant
                i <= self.regex_filters.len(),
                filter_views(kept@) =~= orig.take(i as int).filter(pred),
                found == exists|k: int|
                    0 <= k < i && (#[trigger] orig[k]).filter_id == filter_id as int,
            decreases self.regex_filters.len() - i,
        {
            proof {
                reveal(Seq::filter);
                assert(orig.take(i + 1).drop_last() =~= orig.take(i as int));
                assert(orig.take(i + 1).last() == orig[i as int]);
            }
            if self.regex_filters[i].filter_id == filter_id {
                found = true;
            } else {
                let ghost prev_kept = filter_views(kept@);
                kept.push(self.regex_filters[i].clone());
                proof {
                    assert(filter_views(kept@) =~= prev_kept.push(orig[i as int]));
                }
            }
            i += 1;
        }
        proof {
            assert(orig.take(orig.len() as int) =~= orig);
        }
        let ghost old_ng = string_views(self.ng_users@);
        self.regex_filters = kept;
        proof {
            assert(string_views(self.ng_users@) == old_ng);
            assert(old_ng == old(self)@.ng_users);
            assert(forall|a: int, b: int| 0 <= a < b < old_ng.len() ==> old_ng[a] != old_ng[b]);
            assert(self@.ng_users_unique());
            assert(orig == old(self)@.filters);
            if found {
                let k = choose|k: int|
                    0 <= k < orig.len() && (#[trigger] orig[k]).filter_id == filter_id as int;
                assert((old(self)@.filters[k]).filter_id == filter_id as int);
            }
            if exists|k: int|
                0 <= k < old(self)@.filters.len() && (#[trigger] old(self)@.filters[k]).filter_id
                    == filter_id as int {
                let k = choose|k: int|
                    0 <= k < old(self)@.filters.len()
                        && (#[trigger] old(self)@.filters[k]).filter_id == filter_id as int;
                assert((orig[k]).filter_id == filter_id as int);
            }
        }
        found
    }

    /// Whether the pipeline hides a comment: NG-user membership is checked
    /// first; otherwise each stored pattern is tested against the text in
    /// insertion order, any match hiding it.
    #[verifier::loop_isolation(false)]
    pub fn should_hide(&self, comment: &CommentEvent) -> (r: bool)
        ensures
            r == hides(self@, comment@.user_id, comment@.text),
    {
        if self.contains_ng_user(comment.user_id.as_str()) {
            return true;
        }
        let mut i: usize = 0;
        while i < self.regex_filters.len()
            invariant
                i <= self.regex_filters.len(),
                forall|k: int|
                    0 <= k < i ==> !(#[trigger] pattern_ok(self@.filters[k].pattern)
                        && regex_matches(self@.filters[k].pattern, comment@.text)),
            decreases self.regex_filters.len() - i,
        {
            if regex_is_match(self.regex_filters[i].pattern.as_str(), comment.text.as_str()) {
                assert(pattern_ok(self@.filters[i as int].pattern) && regex_matches(
                    self@.filters[i as int].pattern,
                    comment@.text,
                ));
                return true;
            }
            i += 1;
        }
        false
    }
}

} // verus!
