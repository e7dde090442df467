//! Highlight alignment: given a rendering of a quotation and the context
//! phrase that names its time, computes which character positions of the
//! rendering belong to the phrase.
//!
//! Two variants exist. The wrapped variant scans a reflowed rendering left to
//! right, tolerating the newlines and indentation that reflow inserted; it is
//! greedy and never backtracks, so it degrades to a partial (possibly empty)
//! highlight set instead of failing. The exact variant finds the first
//! case-insensitive occurrence of the phrase in an unwrapped quotation and
//! fails if there is none.

use vstd::prelude::*;
use crate::text::{lower, to_lower};

verus! {

/// The wrapped-variant scan from an intermediate state: position `i` in the
/// rendering, `k` phrase characters already matched at the positions in
/// `acc`, and `head` set when the scan stands just after a line boundary
/// with no reset since. A newline is never consumed as a phrase character; a
/// space while `head` is set is skipped unless it matches; a mismatch resets
/// the match, clears `head`, and moves on one character without retrying.
pub open spec fn scan_from(
    rendered: Seq<char>,
    phrase: Seq<char>,
    i: int,
    k: int,
    head: bool,
    acc: Seq<usize>,
) -> Seq<usize>
    decreases rendered.len() - i,
{
    if i < 0 || i >= rendered.len() || k < 0 || k >= phrase.len() {
        acc
    } else {
        let c = rendered[i];
        if c == '\n' {
            scan_from(rendered, phrase, i + 1, k, true, acc)
        } else if lower(c) == phrase[k] {
            scan_from(rendered, phrase, i + 1, k + 1, head, acc.push(i as usize))
        } else if c == ' ' && head {
            scan_from(rendered, phrase, i + 1, k, head, acc)
        } else {
            scan_from(rendered, phrase, i + 1, 0, false, Seq::empty())
        }
    }
}

/// The positions the wrapped-variant scan highlights: a full left-to-right
/// scan of the rendering against the phrase, possibly incomplete if the
/// phrase never fully matched.
pub open spec fn wrapped_highlights_of(rendered: Seq<char>, phrase: Seq<char>) -> Seq<usize> {
    scan_from(rendered, phrase, 0, 0, false, Seq::empty())
}

/// Runs the wrapped-variant scan: the single pass of the greedy,
/// non-backtracking alignment over a reflowed rendering. `phrase` is
/// expected in canonical (lowercased, apostrophe-normalized) form.
pub fn wrapped_highlights(rendered: &Vec<char>, phrase: &Vec<char>) -> (r: Vec<usize>)
    ensures
        r@ == wrapped_highlights_of(rendered@, phrase@),
{
    let n = rendered.len();
    let mut acc: Vec<usize> = Vec::new();
    let mut k: usize = 0;
    let mut head: bool = false;
    let mut i: usize = 0;
    while i < n && k < phrase.len()
        invariant
            i <= n,
            n == rendered@.len(),
            k <= phrase@.len(),
            wrapped_highlights_of(rendered@, phrase@) == scan_from(
                rendered@,
                phrase@,
                i as int,
                k as int,
                head,
                acc@,
            ),
        decreases n - i,
    {
        let c = rendered[i];
        if c == '\n' {
            head = true;
        } else if to_lower(c) == phrase[k] {
            acc.push(i);
            k = k + 1;
        } else if c == ' ' && head {
        } else {
            acc = Vec::new();
            k = 0;
            head = false;
        }
        i = i + 1;
    }
    acc
}

/// Soundness of the scan from any intermediate state whose accumulator
/// already matches the first `k` phrase characters: the final highlight set
/// never exceeds the phrase, its positions are in range, strictly
/// increasing, never a newline, and its characters, lowercased, spell the
/// phrase prefix of the matched length.
proof fn lemma_scan_from_matches(
    rendered: Seq<char>,
    phrase: Seq<char>,
    i: int,
    k: int,
    head: bool,
    acc: Seq<usize>,
)
    requires
        rendered.len() <= usize::MAX,
        0 <= i <= rendered.len(),
        0 <= k <= phrase.len(),
        acc.len() == k,
        forall|j: int|
            0 <= j < acc.len() ==> acc[j] < i && lower(rendered[#[trigger] acc[j] as int])
                == phrase[j] && rendered[acc[j] as int] != '\n',
        forall|j1: int, j2: int| 0 <= j1 < j2 < acc.len() ==> acc[j1] < acc[j2],
    ensures
        ({
            let res = scan_from(rendered, phrase, i, k, head, acc);
            &&& res.len() <= phrase.len()
            &&& forall|j: int|
                0 <= j < res.len() ==> res[j] < rendered.len() && lower(
                    rendered[#[trigger] res[j] as int],
                ) == phrase[j] && rendered[res[j] as int] != '\n'
            &&& forall|j1: int, j2: int| 0 <= j1 < j2 < res.len() ==> res[j1] < res[j2]
        }),
    decreases rendered.len() - i,
{
    if i < 0 || i >= rendered.len() || k < 0 || k >= phrase.len() {
    } else {
        let c = rendered[i];
        if c == '\n' {
            lemma_scan_from_matches(rendered, phrase, i + 1, k, true, acc);
        } else if lower(c) == phrase[k] {
            lemma_scan_from_matches(rendered, phrase, i + 1, k + 1, head, acc.push(i as usize));
        } else if c == ' ' && head {
            lemma_scan_from_matches(rendered, phrase, i + 1, k, head, acc);
        } else {
            lemma_scan_from_matches(rendered, phrase, i + 1, 0, false, Seq::empty());
        }
    }
}

/// What the wrapped-variant scan guarantees for every rendering and phrase:
/// it highlights at most one position per phrase character; the positions
/// are in range, strictly increasing, and never a newline; and the
/// highlighted characters, lowercased, spell the prefix of the phrase of
/// the matched length. In particular a complete match (as many positions as
/// phrase characters) spells the whole phrase.
pub proof fn lemma_wrapped_highlights_sound(rendered: Seq<char>, phrase: Seq<char>)
    requires
        rendered.len() <= usize::MAX,
    ensures
        ({
            let res = wrapped_highlights_of(rendered, phrase);
            &&& res.len() <= phrase.len()
            &&& forall|j: int|
                0 <= j < res.len() ==> res[j] < rendered.len() && lower(
                    rendered[#[trigger] res[j] as int],
                ) == phrase[j] && rendered[res[j] as int] != '\n'
            &&& forall|j1: int, j2: int| 0 <= j1 < j2 < res.len() ==> res[j1] < res[j2]
        }),
{
    lemma_scan_from_matches(rendered, phrase, 0, 0, false, Seq::empty());
}

/// Whether the phrase matches case-insensitively at position `s` of the
/// quotation.
pub open spec fn matches_at(q: Seq<char>, p: Seq<char>, s: int) -> bool {
    &&& 0 <= s
    &&& s + p.len() <= q.len()
    &&& forall|j: int| 0 <= j < p.len() ==> lower(q[s + j]) == lower(p[j])
}

/// Whether the phrase occurs case-insensitively anywhere in the quotation.
pub open spec fn has_match(q: Seq<char>, p: Seq<char>) -> bool {
    exists|s: int| matches_at(q, p, s)
}

/// Finds the first case-insensitive occurrence of `p` in `q`: the least
/// starting position, or `None` when `p` occurs nowhere.
pub fn find_phrase(q: &Vec<char>, p: &Vec<char>) -> (r: Option<usize>)
    ensures
        match r {
            Some(s) => matches_at(q@, p@, s as int) && forall|s2: int|
                0 <= s2 < s ==> !matches_at(q@, p@, s2),
            None => !has_match(q@, p@),
        },
{
    if p.len() == 0 {
        return Some(0);
    }
    if p.len() > q.len() {
        return None;
    }
    let bound = q.len() - p.len();
    let mut s: usize = 0;
    while s <= bound
        invariant
            bound == q@.len() - p@.len(),
            0 < p@.len() <= q@.len(),
            q@.len() == q.len(),
            s <= bound + 1,
            forall|s2: int| 0 <= s2 < s ==> !matches_at(q@, p@, s2),
        decreases bound + 1 - s,
    {
        if segment_matches(q, p, s) {
            return Some(s);
        }
        s = s + 1;
    }
    proof {
        assert forall|s2: int| !matches_at(q@, p@, s2) by {
            if 0 <= s2 < s {
            } else {
                assert(!(0 <= s2 && s2 + p@.len() <= q@.len()) || s2 < s);
            }
        }
    }
    None
}

/// Whether the phrase matches case-insensitively at the one position `s`.
fn segment_matches(q: &Vec<char>, p: &Vec<char>, s: usize) -> (r: bool)
    requires
        s + p@.len() <= q@.len(),
    ensures
        r == matches_at(q@, p@, s as int),
{
    let mut j: usize = 0;
    while j < p.len()
        invariant
            s + p@.len() <= q@.len(),
            q@.len() == q.len(),
            j <= p@.len(),
            forall|j2: int| 0 <= j2 < j ==> lower(q@[s + j2]) == lower(p@[j2]),
        decreases p@.len() - j,
    {
        if to_lower(q[s + j]) != to_lower(p[j]) {
            proof {
                if matches_at(q@, p@, s as int) {
                    assert(lower(q@[s + j as int]) == lower(p@[j as int]));
                }
            }
            return false;
        }
        j = j + 1;
    }
    true
}

} // verus!
