//! A synthetic comment generator for load testing: a ramp of dummy comments
//! whose per-second rate starts at a base, climbs by a fixed step, and is
//! capped, spread evenly across each second.

use vstd::prelude::*;
use vstd::string::StringExecFns;

use crate::domain::CommentEvent;
use crate::domain::CommentEventView;
use crate::domain::comment_views;

verus! {

/// `v` clamped to `[lo, hi]`.
pub open spec fn clamp_spec(v: int, lo: int, hi: int) -> int {
    if v < lo {
        lo
    } else if v > hi {
        hi
    } else {
        v
    }
}

/// The decimal digit character for `d` in 0..10.
pub open spec fn digit_char(d: int) -> char {
    if d == 0 {
        '0'
    } else if d == 1 {
        '1'
    } else if d == 2 {
        '2'
    } else if d == 3 {
        '3'
    } else if d == 4 {
        '4'
    } else if d == 5 {
        '5'
    } else if d == 6 {
        '6'
    } else if d == 7 {
        '7'
    } else if d == 8 {
        '8'
    } else {
        '9'
    }
}

/// The decimal rendering of a nonnegative number.
pub open spec fn dec_str(n: int) -> Seq<char>
    decreases n,
{
    if n < 10 {
        seq![digit_char(n)]
    } else {
        dec_str(n / 10).push(digit_char(n % 10))
    }
}

/// The single-character string for one decimal digit.
pub(crate) fn digit_str(d: u64) -> (r: &'static str)
    requires
        d < 10,
    ensures
        r@ == seq![digit_char(d as int)],
{
    proof {
        reveal_strlit("0");
        reveal_strlit("1");
        reveal_strlit("2");
        reveal_strlit("3");
        reveal_strlit("4");
        reveal_strlit("5");
        reveal_strlit("6");
        reveal_strlit("7");
        reveal_strlit("8");
        reveal_strlit("9");
    }
    let r = if d == 0 {
        "0"
    } else if d == 1 {
        "1"
    } else if d == 2 {
        "2"
    } else if d == 3 {
        "3"
    } else if d == 4 {
        "4"
    } else if d == 5 {
        "5"
    } else if d == 6 {
        "6"
    } else if d == 7 {
        "7"
    } else if d == 8 {
        "8"
    } else {
        "9"
    };
    proof {
        assert(r@ =~= seq![digit_char(d as int)]);
    }
    r
}

/// Renders a number in decimal.
pub fn dec_string(n: u64) -> (r: String)
    ensures
        r@ == dec_str(n as int),
    decreases n,
{
    if n < 10 {
        digit_str(n).to_owned()
    } else {
        let mut s = dec_string(n / 10);
        s.append(digit_str(n % 10));
        proof {
            assert(dec_str((n / 10) as int) + seq![digit_char((n % 10) as int)] =~= dec_str(
                (n / 10) as int,
            ).push(digit_char((n % 10) as int)));
        }
        s
    }
}

/// The per-second comment rate at second `sec` of the ramp.
pub open spec fn per_sec_spec(sec: int, base: int, ramp: int, max: int) -> int {
    if base + sec * ramp > max {
        max
    } else {
        base + sec * ramp
    }
}

/// The offset of the `idx`-th comment within second `sec`.
pub open spec fn synth_at_ms(sec: int, idx: int, per: int) -> int {
    sec * 1000 + (idx * 1000) / per
}

/// The `idx`-th dummy comment of second `sec`.
pub open spec fn synth_comment(
    video_id: Seq<char>,
    sec: int,
    idx: int,
    per: int,
    span: int,
) -> CommentEventView {
    CommentEventView {
        comment_id: video_id + "-dummy-"@ + dec_str(sec) + "-"@ + dec_str(idx),
        at_ms: synth_at_ms(sec, idx, per),
        user_id: "dummy-user-"@ + dec_str((sec * 31 + idx) % span),
        text: "dummy comment "@ + dec_str(sec) + "-"@ + dec_str(idx) + " / "@ + dec_str(per)
            + "cps"@,
    }
}

/// The comments of one second of the ramp, in order.
pub open spec fn synth_block(
    video_id: Seq<char>,
    sec: int,
    base: int,
    ramp: int,
    max: int,
    span: int,
) -> Seq<CommentEventView> {
    Seq::new(
        per_sec_spec(sec, base, ramp, max) as nat,
        |idx: int| synth_comment(video_id, sec, idx, per_sec_spec(sec, base, ramp, max), span),
    )
}

/// The whole ramp up to (excluding) second `duration`.
pub open spec fn synth_ramp(
    video_id: Seq<char>,
    duration: int,
    base: int,
    ramp: int,
    max: int,
    span: int,
) -> Seq<CommentEventView>
    decreases duration,
{
    if duration <= 0 {
        Seq::empty()
    } else {
        synth_ramp(video_id, duration - 1, base, ramp, max, span) + synth_block(
            video_id,
            duration - 1,
            base,
            ramp,
            max,
            span,
        )
    }
}

/// Builds one dummy comment.
fn build_synth_comment(video_id: &str, sec: u64, idx: u64, per: u64, span: u64) -> (r: CommentEvent)
    requires
        1 <= per <= 2000,
        idx < per,
        sec < 3600,
        1 <= span <= 100000,
    ensures
        r@ == synth_comment(video_id@, sec as int, idx as int, per as int, span as int),
{
    let mut comment_id = video_id.to_owned();
    comment_id.append("-dummy-");
    let sec_str = dec_string(sec);
    comment_id.append(sec_str.as_str());
    comment_id.append("-");
    let idx_str = dec_string(idx);
    comment_id.append(idx_str.as_str());

    let scaled = idx * 1000;
    let frac = scaled / per;
    proof {
        assert(frac <= scaled) by (nonlinear_arith)
            requires
                per >= 1,
                frac == scaled / per,
                scaled <= 2000000,
        ;
    }
    let at_ms = (sec * 1000 + frac) as i64;

    let mut user_id = "dummy-user-".to_owned();
    let user_num = (sec * 31 + idx) % span;
    let user_str = dec_string(user_num);
    user_id.append(user_str.as_str());

    let mut text = "dummy comment ".to_owned();
    text.append(sec_str.as_str());
    text.append("-");
    text.append(idx_str.as_str());
    text.append(" / ");
    let per_str = dec_string(per);
    text.append(per_str.as_str());
    text.append("cps");

    CommentEvent { comment_id, at_ms, user_id, text }
}

/// Generates the ramp of dummy comments for a video: the per-second rate
/// starts at `base_per_sec`, climbs by `ramp_per_sec` each second, and is
/// capped at `max_per_sec`; each parameter is first clamped to its
/// supported range.
#[verifier::loop_isolation(false)]
#[verifier::rlimit(60)]
pub fn generate_synthetic_comments_ramp(
    video_id: &str,
    duration_sec: i64,
    base_per_sec: i64,
    ramp_per_sec: i64,
    max_per_sec: i64,
    user_span: i64,
) -> (r: Vec<CommentEvent>)
    ensures
        comment_views(r@) == synth_ramp(
            video_id@,
            clamp_spec(duration_sec as int, 1, 3600),
            clamp_spec(base_per_sec as int, 1, 500),
            clamp_spec(ramp_per_sec as int, 0, 100),
            clamp_spec(max_per_sec as int, 1, 2000),
            clamp_spec(user_span as int, 1, 100000),
        ),
{
    let duration: u64 = clamp_i64(duration_sec, 1, 3600) as u64;
    let base: u64 = clamp_i64(base_per_sec, 1, 500) as u64;
    let ramp: u64 = clamp_i64(ramp_per_sec, 0, 100) as u64;
    let max: u64 = clamp_i64(max_per_sec, 1, 2000) as u64;
    let span: u64 = clamp_i64(user_span, 1, 100000) as u64;

    let mut out: Vec<CommentEvent> = Vec::new();
    let mut sec: u64 = 0;
    proof {
        assert(comment_views(out@) =~= Seq::<CommentEventView>::empty());
    }
    while sec < duration
        invariant
            sec <= duration,
            comment_views(out@) == synth_ramp(
                video_id@,
                sec as int,
                base as int,
                ramp as int,
                max as int,
                span as int,
            ),
        decreases duration - sec,
    {
        proof {
            assert(sec * ramp <= 3600 * 100) by (nonlinear_arith)
                requires
                    sec < 3600,
                    ramp <= 100,
            ;
        }
        let raw_rate = base + sec * ramp;
        let per: u64 = if raw_rate > max {
            max
        } else {
            raw_rate
        };
        assert(per as int == per_sec_spec(sec as int, base as int, ramp as int, max as int));
        let ghost block = synth_block(
            video_id@,
            sec as int,
            base as int,
            ramp as int,
            max as int,
            span as int,
        );
        let ghost before_sec = comment_views(out@);
        let mut idx: u64 = 0;
        while idx < per
            invariant
                idx <= per,
                comment_views(out@) == before_sec + block.take(idx as int),
            decreases per - idx,
        {
            let ghost prev = comment_views(out@);
            let c = build_synth_comment(video_id, sec, idx, per, span);
            out.push(c);
            proof {
                assert(comment_views(out@) =~= prev.push(block[idx as int]));
                assert(block.take(idx + 1) =~= block.take(idx as int).push(block[idx as int]));
                assert(comment_views(out@) =~= before_sec + block.take(idx + 1));
            }
            idx += 1;
        }
        proof {
            assert(block.take(per as int) =~= block);
            assert(comment_views(out@) == synth_ramp(
                video_id@,
                sec as int + 1,
                base as int,
                ramp as int,
                max as int,
                span as int,
            ));
        }
        sec += 1;
    }
    out
}

/// `v` clamped to `[lo, hi]`.
fn clamp_i64(v: i64, lo: i64, hi: i64) -> (r: i64)
    requires
        lo <= hi,
    ensures
        r as int == clamp_spec(v as int, lo as int, hi as int),
        lo <= r <= hi,
{
    if v < lo {
        lo
    } else if v > hi {
        hi
    } else {
        v
    }
}

} // verus!
