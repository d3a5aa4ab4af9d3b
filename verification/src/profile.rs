//! Runtime profiles: three named baselines and the process-wide tunables the
//! emission governor reads.  Selecting a profile resets every field to the
//! baseline defaults and then applies explicit overrides, with the frame-rate
//! target clamped to [10, 120] and the emission budget capped at 2000.

use vstd::prelude::*;
use vstd::string::StrSliceExecFns;

verus! {

/// One of the three named baseline profiles.
#[derive(Debug, Clone, Copy, PartialEq, Eq, Structural)]
pub enum RuntimeProfile {
    High,
    Balanced,
    LowSpec,
}

/// Whether a character is Unicode white space (the set `str::trim` strips).
pub open spec fn is_space(c: char) -> bool {
    let u = c as u32;
    (9 <= u && u <= 13) || u == 32 || u == 0x85 || u == 0xA0 || u == 0x1680 || (0x2000 <= u && u
        <= 0x200A) || u == 0x2028 || u == 0x2029 || u == 0x202F || u == 0x205F || u == 0x3000
}

/// The characters remaining after leading white space is removed.
pub open spec fn trim_front(s: Seq<char>) -> Seq<char>
    decreases s.len(),
{
    if s.len() > 0 && is_space(s[0]) {
        trim_front(s.drop_first())
    } else {
        s
    }
}

/// The characters remaining after trailing white space is removed.
pub open spec fn trim_back(s: Seq<char>) -> Seq<char>
    decreases s.len(),
{
    if s.len() > 0 && is_space(s.last()) {
        trim_back(s.drop_last())
    } else {
        s
    }
}

/// The characters remaining after white space is removed from both ends.
pub open spec fn trimmed(s: Seq<char>) -> Seq<char> {
    trim_back(trim_front(s))
}

/// Whether `c` equals the (lower-case) character `l` once ASCII upper-case
/// letters are folded down.
pub open spec fn lower_eq(c: char, l: char) -> bool {
    c as u32 == l as u32 || (65 <= c as u32 && c as u32 <= 90 && c as u32 + 32 == l as u32)
}

/// Whether `s` spells `name` up to ASCII case folding.
pub open spec fn name_matches(s: Seq<char>, name: Seq<char>) -> bool {
    s.len() == name.len() && forall|i: int| 0 <= i < s.len() ==> lower_eq(s[i], #[trigger] name[i])
}

/// The profile selected by a user-supplied name: white space is trimmed,
/// case is ignored, and the low-spec profile answers to two spellings.
pub open spec fn parse_profile(s: Seq<char>) -> Option<RuntimeProfile> {
    let t = trimmed(s);
    if name_matches(t, "high"@) {
        Some(RuntimeProfile::High)
    } else if name_matches(t, "balanced"@) {
        Some(RuntimeProfile::Balanced)
    } else if name_matches(t, "low_spec"@) || name_matches(t, "lowspec"@) {
        Some(RuntimeProfile::LowSpec)
    } else {
        None
    }
}

proof fn lemma_trim_front_subrange(s: Seq<char>, lo: int)
    requires
        0 <= lo <= s.len(),
        forall|k: int| 0 <= k < lo ==> is_space(#[trigger] s[k]),
        lo < s.len() ==> !is_space(s[lo]),
    ensures
        trim_front(s) == s.subrange(lo, s.len() as int),
    decreases lo,
{
    if lo == 0 {
        assert(s.subrange(0, s.len() as int) =~= s);
    } else {
        let rest = s.drop_first();
        lemma_trim_front_subrange(rest, lo - 1);
        assert(rest.subrange(lo - 1, rest.len() as int) =~= s.subrange(lo, s.len() as int));
    }
}

proof fn lemma_trim_back_subrange(s: Seq<char>, hi: int)
    requires
        0 <= hi <= s.len(),
        forall|k: int| hi <= k < s.len() ==> is_space(#[trigger] s[k]),
        hi > 0 ==> !is_space(s[hi - 1]),
    ensures
        trim_back(s) == s.subrange(0, hi),
    decreases s.len(),
{
    if hi == s.len() {
        assert(s.subrange(0, s.len() as int) =~= s);
    } else {
        let rest = s.drop_last();
        lemma_trim_back_subrange(rest, hi);
        assert(rest.subrange(0, hi) =~= s.subrange(0, hi));
    }
}

proof fn lemma_trimmed_subrange(s: Seq<char>, lo: int, hi: int)
    requires
        0 <= lo <= hi <= s.len(),
        forall|k: int| 0 <= k < lo ==> is_space(#[trigger] s[k]),
        forall|k: int| hi <= k < s.len() ==> is_space(#[trigger] s[k]),
        lo < s.len() ==> !is_space(s[lo]),
        hi > lo ==> !is_space(s[hi - 1]),
    ensures
        trimmed(s) == s.subrange(lo, hi),
{
    lemma_trim_front_subrange(s, lo);
    let m = s.subrange(lo, s.len() as int);
    lemma_trim_back_subrange(m, hi - lo);
    assert(m.subrange(0, hi - lo) =~= s.subrange(lo, hi));
}

/// Whether a character is Unicode white space.
fn is_space_exec(c: char) -> (r: bool)
    ensures
        r == is_space(c),
{
    let u = c as u32;
    (9 <= u && u <= 13) || u == 32 || u == 0x85 || u == 0xA0 || u == 0x1680 || (0x2000 <= u && u
        <= 0x200A) || u == 0x2028 || u == 0x2029 || u == 0x202F || u == 0x205F || u == 0x3000
}

/// The characters of a string slice, collected for indexed access.
#[verifier::loop_isolation(false)]
pub(crate) fn collect_chars(s: &str) -> (r: Vec<char>)
    ensures
        r@ == s@,
{
    let n = s.unicode_len();
    let mut out: Vec<char> = Vec::new();
    let mut i: usize = 0;
    while i < n
        invariant
            i <= n,
            n == s@.len(),
            out@.len() == i,
            forall|k: int| 0 <= k < i ==> out@[k] == s@[k],
        decreases n - i,
    {
        out.push(s.get_char(i));
        i += 1;
    }
    proof {
        assert(out@ =~= s@);
    }
    out
}

/// Whether the characters in `[lo, hi)` spell `name` up to ASCII case
/// folding.
#[verifier::loop_isolation(false)]
fn matches_name(chars: &Vec<char>, lo: usize, hi: usize, name: &str) -> (r: bool)
    requires
        lo <= hi <= chars@.len(),
    ensures
        r == name_matches(chars@.subrange(lo as int, hi as int), name@),
{
    let n = name.unicode_len();
    if hi - lo != n {
        return false;
    }
    let mut i: usize = 0;
    while i < n
        invariant
            i <= n,
            forall|k: int|
                0 <= k < i ==> lower_eq(
                    chars@.subrange(lo as int, hi as int)[k],
                    #[trigger] name@[k],
                ),
        decreases n - i,
    {
        let c = chars[lo + i];
        let l = name.get_char(i);
        let cu = c as u32;
        let lu = l as u32;
        if !(cu == lu || (65 <= cu && cu <= 90 && cu + 32 == lu)) {
            assert(!lower_eq(chars@.subrange(lo as int, hi as int)[i as int], name@[i as int]));
            return false;
        }
        assert(lower_eq(chars@.subrange(lo as int, hi as int)[i as int], name@[i as int]));
        i += 1;
    }
    true
}

impl RuntimeProfile {
    /// Parses a user-supplied profile name: surrounding white space and
    /// ASCII case are ignored; unknown names yield `None`.
    #[verifier::loop_isolation(false)]
    pub fn from_str(value: &str) -> (r: Option<RuntimeProfile>)
        ensures
            r == parse_profile(value@),
    {
        let chars = collect_chars(value);
        let n = chars.len();
        let mut lo: usize = 0;
        while lo < n && is_space_exec(chars[lo])
            invariant
                lo <= n,
                forall|k: int| 0 <= k < lo ==> is_space(#[trigger] value@[k]),
            decreases n - lo,
        {
            lo += 1;
        }
        let mut hi: usize = n;
        while hi > lo && is_space_exec(chars[hi - 1])
            invariant
                lo <= hi <= n,
                forall|k: int| hi <= k < n ==> is_space(#[trigger] value@[k]),
            decreases hi,
        {
            hi -= 1;
        }
        proof {
            lemma_trimmed_subrange(value@, lo as int, hi as int);
        }
        if matches_name(&chars, lo, hi, "high") {
            Some(RuntimeProfile::High)
        } else if matches_name(&chars, lo, hi, "balanced") {
            Some(RuntimeProfile::Balanced)
        } else if matches_name(&chars, lo, hi, "low_spec") {
            Some(RuntimeProfile::LowSpec)
        } else if matches_name(&chars, lo, hi, "lowspec") {
            Some(RuntimeProfile::LowSpec)
        } else {
            None
        }
    }

    /// The canonical wire name of the profile.
    pub fn as_str(self) -> (r: &'static str)
        ensures
            self == RuntimeProfile::High ==> r@ == "high"@,
            self == RuntimeProfile::Balanced ==> r@ == "balanced"@,
            self == RuntimeProfile::LowSpec ==> r@ == "low_spec"@,
    {
        match self {
            RuntimeProfile::High => "high",
            RuntimeProfile::Balanced => "balanced",
            RuntimeProfile::LowSpec => "low_spec",
        }
    }
}

/// The process-wide tunables: the active profile, the renderer frame-rate
/// target, the per-tick emission budget (0 means unbounded) and whether
/// exact-duplicate comments are coalesced.
#[derive(Debug, Clone, Copy, PartialEq, Eq, Structural)]
pub struct RuntimeProfileConfig {
    pub profile: RuntimeProfile,
    pub target_fps: u32,
    pub max_emit_per_tick: usize,
    pub coalesce_same_content: bool,
}

/// The baseline defaults of each named profile.
pub open spec fn profile_baseline(profile: RuntimeProfile) -> RuntimeProfileConfig {
    match profile {
        RuntimeProfile::High => RuntimeProfileConfig {
            profile,
            target_fps: 30,
            max_emit_per_tick: 0,
            coalesce_same_content: false,
        },
        RuntimeProfile::Balanced => RuntimeProfileConfig {
            profile,
            target_fps: 30,
            max_emit_per_tick: 96,
            coalesce_same_content: false,
        },
        RuntimeProfile::LowSpec => RuntimeProfileConfig {
            profile,
            target_fps: 30,
            max_emit_per_tick: 48,
            coalesce_same_content: true,
        },
    }
}

/// The frame-rate target clamped to the supported range.
pub open spec fn clamp_fps(v: u32) -> u32 {
    if v < 10 {
        10u32
    } else if v > 120 {
        120u32
    } else {
        v
    }
}

/// The emission budget capped at its ceiling.
pub open spec fn cap_emit(v: usize) -> usize {
    if v > 2000 {
        2000usize
    } else {
        v
    }
}

/// A baseline with overrides applied on top.
pub open spec fn with_overrides(
    base: RuntimeProfileConfig,
    target_fps: Option<u32>,
    max_emit_per_tick: Option<usize>,
    coalesce_same_content: Option<bool>,
) -> RuntimeProfileConfig {
    RuntimeProfileConfig {
        profile: base.profile,
        target_fps: match target_fps {
            Some(v) => clamp_fps(v),
            None => base.target_fps,
        },
        max_emit_per_tick: match max_emit_per_tick {
            Some(v) => cap_emit(v),
            None => base.max_emit_per_tick,
        },
        coalesce_same_content: match coalesce_same_content {
            Some(v) => v,
            None => base.coalesce_same_content,
        },
    }
}

impl RuntimeProfileConfig {
    /// The configuration a process starts with.
    pub fn defaults() -> (r: RuntimeProfileConfig)
        ensures
            r == profile_baseline(RuntimeProfile::Balanced),
    {
        Self::for_profile(RuntimeProfile::Balanced)
    }

    /// The baseline defaults of a named profile.
    pub fn for_profile(profile: RuntimeProfile) -> (r: RuntimeProfileConfig)
        ensures
            r == profile_baseline(profile),
    {
        match profile {
            RuntimeProfile::High => RuntimeProfileConfig {
                profile,
                target_fps: 30,
                max_emit_per_tick: 0,
                coalesce_same_content: false,
            },
            RuntimeProfile::Balanced => RuntimeProfileConfig {
                profile,
                target_fps: 30,
                max_emit_per_tick: 96,
                coalesce_same_content: false,
            },
            RuntimeProfile::LowSpec => RuntimeProfileConfig {
                profile,
                target_fps: 30,
                max_emit_per_tick: 48,
                coalesce_same_content: true,
            },
        }
    }

    /// Applies explicit overrides: the frame-rate target is clamped to
    /// [10, 120], the emission budget is capped at 2000, and the coalesce
    /// flag is taken verbatim.
    pub fn apply_overrides(
        &mut self,
        target_fps: Option<u32>,
        max_emit_per_tick: Option<usize>,
        coalesce_same_content: Option<bool>,
    )
        ensures
            *final(self) == with_overrides(
                *old(self),
                target_fps,
                max_emit_per_tick,
                coalesce_same_content,
            ),
    {
        if let Some(v) = target_fps {
            self.target_fps = if v < 10 {
                10
            } else if v > 120 {
                120
            } else {
                v
            };
        }
        if let Some(v) = max_emit_per_tick {
            self.max_emit_per_tick = if v > 2000 {
                2000
            } else {
                v
            };
        }
        if let Some(v) = coalesce_same_content {
            self.coalesce_same_content = v;
        }
    }
}

} // verus!
