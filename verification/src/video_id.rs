//! Extracting a video id from a file path: the first `sm`, `nm` or `so`
//! tag (any case) in the file name that is followed by digits, rendered
//! lower case together with its maximal digit run.

use vstd::prelude::*;
use vstd::string::StringExecFns;

use crate::profile::collect_chars;
use crate::profile::lower_eq;

verus! {

/// Whether a character is a decimal digit.
pub open spec fn is_digit(c: char) -> bool {
    48 <= c as u32 && c as u32 <= 57
}

/// The lower-cased two-letter tag starting at `i`, if `sm`, `nm` or `so`
/// stands there up to ASCII case.
pub open spec fn tag_at(s: Seq<char>, i: int) -> Option<Seq<char>> {
    if i + 2 <= s.len() {
        if lower_eq(s[i], 's') && lower_eq(s[i + 1], 'm') {
            Some("sm"@)
        } else if lower_eq(s[i], 'n') && lower_eq(s[i + 1], 'm') {
            Some("nm"@)
        } else if lower_eq(s[i], 's') && lower_eq(s[i + 1], 'o') {
            Some("so"@)
        } else {
            None
        }
    } else {
        None
    }
}

/// Whether a tag followed by at least one digit starts at `i`.
pub open spec fn hit_at(s: Seq<char>, i: int) -> bool {
    tag_at(s, i) is Some && i + 2 < s.len() && is_digit(s[i + 2])
}

/// The position of the leftmost hit at or after `i`.
pub open spec fn first_hit(s: Seq<char>, i: int) -> Option<int>
    decreases s.len() - i,
{
    if i < 0 || i + 2 >= s.len() {
        None
    } else if hit_at(s, i) {
        Some(i)
    } else {
        first_hit(s, i + 1)
    }
}

/// The end of the digit run starting at `j`.
pub open spec fn digits_end(s: Seq<char>, j: int) -> int
    decreases s.len() - j,
{
    if 0 <= j < s.len() && is_digit(s[j]) {
        digits_end(s, j + 1)
    } else {
        j
    }
}

/// The index right after the last path separator.
pub open spec fn name_start(s: Seq<char>) -> int
    decreases s.len(),
{
    if s.len() == 0 {
        0
    } else if s[s.len() - 1] == '/' {
        s.len() as int
    } else {
        name_start(s.drop_last())
    }
}

/// The video id a path yields: within the file name (the part after the
/// last separator), the leftmost case-insensitive `sm`/`nm`/`so` tag
/// followed by digits, as the lower-cased tag plus its digit run.
pub open spec fn video_id_spec(path: Seq<char>) -> Option<Seq<char>> {
    let f = path.subrange(name_start(path), path.len() as int);
    match first_hit(f, 0) {
        None => None,
        Some(i) => Some(tag_at(f, i)->Some_0 + f.subrange(i + 2, digits_end(f, i + 2))),
    }
}

/// The single-character string for one digit character.
fn digit_char_str(c: char) -> (r: &'static str)
    requires
        is_digit(c),
    ensures
        r@ == seq![c],
{
    proof {
        reveal_strlit("0");
        reveal_strlit("1");
        reveal_strlit("2");
        reveal_strlit("3");
        reveal_strlit("4");
        reveal_strlit("5");
        reveal_strlit("6");
        reveal_strlit("7");
        reveal_strlit("8");
        reveal_strlit("9");
    }
    let r = if c == '0' {
        "0"
    } else if c == '1' {
        "1"
    } else if c == '2' {
        "2"
    } else if c == '3' {
        "3"
    } else if c == '4' {
        "4"
    } else if c == '5' {
        "5"
    } else if c == '6' {
        "6"
    } else if c == '7' {
        "7"
    } else if c == '8' {
        "8"
    } else {
        "9"
    };
    proof {
        assert(r@ =~= seq![c]);
    }
    r
}

/// Whether a character is a decimal digit.
fn is_digit_exec(c: char) -> (r: bool)
    ensures
        r == is_digit(c),
{
    let u = c as u32;
    48 <= u && u <= 57
}

/// Whether `c` case-folds to the lower-case letter `l`.
fn lower_eq_exec(c: char, l: char) -> (r: bool)
    ensures
        r == lower_eq(c, l),
{
    let cu = c as u32;
    let lu = l as u32;
    cu == lu || (65 <= cu && cu <= 90 && cu + 32 == lu)
}

/// Whether a tag followed by a digit starts at `i` of the collected
/// characters.
fn is_hit_exec(chars: &Vec<char>, i: usize) -> (r: bool)
    requires
        i + 2 < chars@.len(),
    ensures
        r == hit_at(chars@, i as int),
{
    proof {
        reveal_strlit("sm");
        reveal_strlit("nm");
        reveal_strlit("so");
    }
    let n = chars.len();
    assert(i + 2 < n);
    let c0 = chars[i];
    let c1 = chars[i + 1];
    let c2 = chars[i + 2];
    let tag_here = (lower_eq_exec(c0, 's') && lower_eq_exec(c1, 'm')) || (lower_eq_exec(c0, 'n')
        && lower_eq_exec(c1, 'm')) || (lower_eq_exec(c0, 's') && lower_eq_exec(c1, 'o'));
    tag_here && is_digit_exec(c2)
}

/// The shift of one index between a path and its file-name suffix changes
/// nothing about a hit.
proof fn lemma_hit_shift(s: Seq<char>, start: int, i: int)
    requires
        0 <= start <= i,
        i + 2 <= s.len(),
    ensures
        hit_at(s.subrange(start, s.len() as int), i - start) == hit_at(s, i),
{
    let f = s.subrange(start, s.len() as int);
    if i + 2 < s.len() {
        assert(f[i - start] == s[i]);
        assert(f[i - start + 1] == s[i + 1]);
        assert(f[i - start + 2] == s[i + 2]);
    }
}

/// Extracts a video id from a file path, if its file name carries one.
#[verifier::loop_isolation(false)]
#[verifier::rlimit(60)]
pub fn extract_video_id_from_path(path: &str) -> (r: Option<String>)
    ensures
        r is Some <==> video_id_spec(path@) is Some,
        r is Some ==> (r->Some_0)@ == video_id_spec(path@)->Some_0,
{
    proof {
        reveal_strlit("sm");
        reveal_strlit("nm");
        reveal_strlit("so");
    }
    let chars = collect_chars(path);
    let n = chars.len();

    let mut start: usize = n;
    while start > 0 && chars[start - 1] != '/'
        invariant
            start <= n,
            forall|k: int| start <= k < n ==> path@[k] != '/',
        decreases start,
    {
        start -= 1;
    }
    proof {
        lemma_name_start(path@, start as int);
    }
    let ghost f = path@.subrange(start as int, n as int);

    let mut i: usize = start;
    while i < n && n - i > 2 && !is_hit_exec(&chars, i)
        invariant
            start <= i <= n,
            forall|k: int| 0 <= k < i - start ==> !hit_at(f, k),
        decreases n - i,
    {
        proof {
            lemma_hit_shift(path@, start as int, i as int);
        }
        i += 1;
    }
    if i >= n || n - i <= 2 {
        proof {
            lemma_first_hit_none(f, 0, (i - start) as int);
        }
        return None;
    }
    proof {
        lemma_hit_shift(path@, start as int, i as int);
        assert(hit_at(f, (i - start) as int));
        lemma_first_hit_found(f, 0, (i - start) as int);
    }

    let c0 = chars[i];
    let c1 = chars[i + 1];
    let mut id: String = if lower_eq_exec(c0, 's') && lower_eq_exec(c1, 'm') {
        "sm".to_owned()
    } else if lower_eq_exec(c0, 'n') && lower_eq_exec(c1, 'm') {
        "nm".to_owned()
    } else {
        "so".to_owned()
    };
    assert(id@ == tag_at(f, i - start as int)->Some_0);

    let digits_from = i + 2;
    let mut j: usize = digits_from;
    while j < n && is_digit_exec(chars[j])
        invariant
            digits_from <= j <= n,
            forall|k: int| digits_from <= k < j ==> is_digit(path@[k]),
            id@ == tag_at(f, i - start as int)->Some_0 + f.subrange(
                (digits_from - start) as int,
                (j - start) as int,
            ),
        decreases n - j,
    {
        let ghost before = id@;
        id.append(digit_char_str(chars[j]));
        proof {
            assert(path@[j as int] == f[(j - start) as int]);
            assert(f.subrange((digits_from - start) as int, (j - start) as int).push(
                f[(j - start) as int],
            ) =~= f.subrange((digits_from - start) as int, (j + 1 - start) as int));
        }
        j += 1;
    }
    proof {
        lemma_digits_end(f, (digits_from - start) as int, (j - start) as int);
    }
    Some(id)
}

proof fn lemma_name_start(s: Seq<char>, start: int)
    requires
        0 <= start <= s.len(),
        forall|k: int| start <= k < s.len() ==> s[k] != '/',
        start > 0 ==> s[start - 1] == '/',
    ensures
        name_start(s) == start,
    decreases s.len(),
{
    if s.len() > 0 {
        if start == s.len() {
        } else {
            let d = s.drop_last();
            assert(s[s.len() - 1] != '/');
            assert(forall|k: int| start <= k < d.len() ==> d[k] != '/');
            lemma_name_start(d, start);
        }
    }
}

proof fn lemma_first_hit_none(s: Seq<char>, from: int, upto: int)
    requires
        0 <= from <= upto,
        upto + 2 >= s.len(),
        forall|k: int| 0 <= k < upto ==> !hit_at(s, k),
    ensures
        first_hit(s, from) is None,
    decreases s.len() - from,
{
    if from + 2 < s.len() {
        assert(!hit_at(s, from));
        lemma_first_hit_none(s, from + 1, upto);
    }
}

proof fn lemma_first_hit_found(s: Seq<char>, from: int, at: int)
    requires
        0 <= from <= at,
        hit_at(s, at),
        forall|k: int| 0 <= k < at ==> !hit_at(s, k),
    ensures
        first_hit(s, from) == Some(at),
    decreases at - from,
{
    assert(at + 2 < s.len());
    if from < at {
        assert(!hit_at(s, from));
        lemma_first_hit_found(s, from + 1, at);
    }
}

proof fn lemma_digits_end(s: Seq<char>, from: int, end: int)
    requires
        0 <= from <= end <= s.len(),
        forall|k: int| from <= k < end ==> is_digit(#[trigger] s[k]),
        end < s.len() ==> !is_digit(s[end]),
    ensures
        digits_end(s, from) == end,
    decreases end - from,
{
    if from < end {
        assert(is_digit(s[from]));
        lemma_digits_end(s, from + 1, end);
    }
}

} // verus!
