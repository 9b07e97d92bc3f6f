//! Hallucination filtering for chunk transcriptions.
//!
//! At chunk starts the model occasionally emits stray punctuation or short
//! spurious words when transitioning from silence. Three passes remove, at
//! the start of the trimmed text: a run of punctuation, a short alphanumeric
//! word closed by punctuation, and a chain of such words.

use vstd::prelude::*;

use crate::text::{
    chars_of, is_space, is_space_char, skip_spaces_spec, string_from_chars, trim_chars, trim_spec,
    lemma_skip_spaces_bounds,
};

verus! {

/// Punctuation that can open a hallucinated fragment.
pub open spec fn is_halluc_punct(c: char) -> bool {
    c == '.' || c == ',' || c == '-' || c == ';' || c == ':' || c == '!' || c == '?'
}

/// Punctuation that closes a short hallucinated word.
pub open spec fn is_closing_punct(c: char) -> bool {
    c == '.' || c == ',' || c == '-' || c == ';' || c == ':'
}

/// ASCII alphanumeric characters.
pub open spec fn is_alnum_char(c: char) -> bool {
    ('A' <= c && c <= 'Z') || ('a' <= c && c <= 'z') || ('0' <= c && c <= '9')
}

fn halluc_punct(c: char) -> (r: bool)
    ensures
        r == is_halluc_punct(c),
{
    c == '.' || c == ',' || c == '-' || c == ';' || c == ':' || c == '!' || c == '?'
}

fn closing_punct(c: char) -> (r: bool)
    ensures
        r == is_closing_punct(c),
{
    c == '.' || c == ',' || c == '-' || c == ';' || c == ':'
}

fn alnum_char(c: char) -> (r: bool)
    ensures
        r == is_alnum_char(c),
{
    ('A' <= c && c <= 'Z') || ('a' <= c && c <= 'z') || ('0' <= c && c <= '9')
}

/// First index at or after `i` holding neither punctuation nor whitespace.
pub open spec fn punct_space_end_spec(s: Seq<char>, i: int) -> int
    decreases s.len() - i,
{
    if i < 0 || i >= s.len() {
        i
    } else if is_halluc_punct(s[i]) || is_space_char(s[i]) {
        punct_space_end_spec(s, i + 1)
    } else {
        i
    }
}

pub proof fn lemma_punct_space_end_bounds(s: Seq<char>, i: int)
    requires
        0 <= i <= s.len(),
    ensures
        i <= punct_space_end_spec(s, i) <= s.len(),
    decreases s.len() - i,
{
    if i < s.len() && (is_halluc_punct(s[i]) || is_space_char(s[i])) {
        lemma_punct_space_end_bounds(s, i + 1);
    }
}

/// First index at or after `i` holding a non-alphanumeric character.
pub open spec fn alnum_end_spec(s: Seq<char>, i: int) -> int
    decreases s.len() - i,
{
    if i < 0 || i >= s.len() {
        i
    } else if is_alnum_char(s[i]) {
        alnum_end_spec(s, i + 1)
    } else {
        i
    }
}

pub proof fn lemma_alnum_end_bounds(s: Seq<char>, i: int)
    requires
        0 <= i <= s.len(),
    ensures
        i <= alnum_end_spec(s, i) <= s.len(),
    decreases s.len() - i,
{
    if i < s.len() && is_alnum_char(s[i]) {
        lemma_alnum_end_bounds(s, i + 1);
    }
}

/// First pass: if the text opens with punctuation, drop the longest leading
/// run of punctuation and whitespace.
pub open spec fn strip_leading_punct_spec(s: Seq<char>) -> Seq<char> {
    if s.len() > 0 && is_halluc_punct(s[0]) {
        s.subrange(punct_space_end_spec(s, 0), s.len() as int)
    } else {
        s
    }
}

/// Whether the second pass matches: one to four alphanumerics closed by
/// punctuation at the very start.
pub open spec fn short_word_matches(s: Seq<char>) -> bool {
    let a = alnum_end_spec(s, 0);
    1 <= a <= 4 && a < s.len() && is_closing_punct(s[a])
}

/// Second pass: drop a short leading word closed by punctuation, along with
/// the whitespace that follows.
pub open spec fn strip_short_word_spec(s: Seq<char>) -> Seq<char> {
    let a = alnum_end_spec(s, 0);
    if short_word_matches(s) {
        s.subrange(skip_spaces_spec(s, a + 1), s.len() as int)
    } else {
        s
    }
}

/// End of a chain group starting at `i`: optional punctuation, whitespace,
/// one to four alphanumerics, closing punctuation, whitespace. Negative when
/// no group starts at `i`.
pub open spec fn chain_group_end_spec(s: Seq<char>, i: int) -> int {
    let p = if i < s.len() && is_halluc_punct(s[i]) {
        i + 1
    } else {
        i
    };
    let q = skip_spaces_spec(s, p);
    let a = alnum_end_spec(s, q);
    if q < a && a - q <= 4 && a < s.len() && is_closing_punct(s[a]) {
        skip_spaces_spec(s, a + 1)
    } else {
        -1
    }
}

pub proof fn lemma_chain_group_end_bounds(s: Seq<char>, i: int)
    requires
        0 <= i <= s.len(),
    ensures
        chain_group_end_spec(s, i) >= 0 ==> i < chain_group_end_spec(s, i) <= s.len(),
{
    let p = if i < s.len() && is_halluc_punct(s[i]) {
        i + 1
    } else {
        i
    };
    lemma_skip_spaces_bounds(s, p);
    let q = skip_spaces_spec(s, p);
    lemma_alnum_end_bounds(s, q);
    let a = alnum_end_spec(s, q);
    if q < a && a - q <= 4 && a < s.len() && is_closing_punct(s[a]) {
        lemma_skip_spaces_bounds(s, a + 1);
    }
}

#[via_fn]
proof fn chain_end_from_spec_decreases(s: Seq<char>, i: int) {
    if 0 <= i <= s.len() {
        lemma_chain_group_end_bounds(s, i);
    }
}

/// End of the longest chain of groups starting at `i`.
pub open spec fn chain_end_from_spec(s: Seq<char>, i: int) -> int
    decreases s.len() - i,
    when 0 <= i <= s.len()
    via chain_end_from_spec_decreases
{
    let e = chain_group_end_spec(s, i);
    if e < 0 {
        i
    } else {
        chain_end_from_spec(s, e)
    }
}

pub proof fn lemma_chain_end_from_bounds(s: Seq<char>, i: int)
    requires
        0 <= i <= s.len(),
    ensures
        i <= chain_end_from_spec(s, i) <= s.len(),
    decreases s.len() - i,
{
    lemma_chain_group_end_bounds(s, i);
    let e = chain_group_end_spec(s, i);
    if e >= 0 {
        lemma_chain_end_from_bounds(s, e);
    }
}

/// Third pass: drop a leading chain of short punctuated words.
pub open spec fn strip_chain_spec(s: Seq<char>) -> Seq<char> {
    let e = chain_end_from_spec(s, 0);
    if e > 0 {
        s.subrange(e, s.len() as int)
    } else {
        s
    }
}

/// The whole hallucination filter: trim, then the three passes, then trim.
pub open spec fn filter_hallucinations_spec(s: Seq<char>) -> Seq<char> {
    trim_spec(
        strip_chain_spec(strip_short_word_spec(strip_leading_punct_spec(trim_spec(s)))),
    )
}

/// First index at or after `i` holding neither punctuation nor whitespace.
fn punct_space_end(v: &Vec<char>, i: usize) -> (r: usize)
    requires
        i <= v@.len(),
    ensures
        r == punct_space_end_spec(v@, i as int),
        i <= r <= v@.len(),
{
    let n: usize = v.len();
    let mut k: usize = i;
    while k < n && (halluc_punct(v[k]) || is_space(v[k]))
        invariant
            i <= k <= n,
            n == v@.len(),
            punct_space_end_spec(v@, i as int) == punct_space_end_spec(v@, k as int),
        decreases n - k,
    {
        k = k + 1;
    }
    k
}

/// First index at or after `i` holding a non-alphanumeric character.
fn alnum_end(v: &Vec<char>, i: usize) -> (r: usize)
    requires
        i <= v@.len(),
    ensures
        r == alnum_end_spec(v@, i as int),
        i <= r <= v@.len(),
{
    let n: usize = v.len();
    let mut k: usize = i;
    while k < n && alnum_char(v[k])
        invariant
            i <= k <= n,
            n == v@.len(),
            alnum_end_spec(v@, i as int) == alnum_end_spec(v@, k as int),
        decreases n - k,
    {
        k = k + 1;
    }
    k
}

/// First index at or after `i` holding a non-space character.
fn space_end(v: &Vec<char>, i: usize) -> (r: usize)
    requires
        i <= v@.len(),
    ensures
        r == skip_spaces_spec(v@, i as int),
        i <= r <= v@.len(),
{
    let n: usize = v.len();
    let mut k: usize = i;
    while k < n && is_space(v[k])
        invariant
            i <= k <= n,
            n == v@.len(),
            skip_spaces_spec(v@, i as int) == skip_spaces_spec(v@, k as int),
        decreases n - k,
    {
        k = k + 1;
    }
    k
}

/// End of a chain group starting at `i`, or `None`.
fn chain_group_end(v: &Vec<char>, i: usize) -> (r: Option<usize>)
    requires
        i <= v@.len(),
    ensures
        match r {
            Some(e) => e == chain_group_end_spec(v@, i as int) && i < e <= v@.len(),
            None => chain_group_end_spec(v@, i as int) < 0,
        },
{
    let n: usize = v.len();
    let p: usize = if i < n && halluc_punct(v[i]) {
        i + 1
    } else {
        i
    };
    let q = space_end(v, p);
    let a = alnum_end(v, q);
    if q < a && a - q <= 4 && a < n && closing_punct(v[a]) {
        let e = space_end(v, a + 1);
        proof {
            lemma_chain_group_end_bounds(v@, i as int);
        }
        Some(e)
    } else {
        None
    }
}

/// Copies `v[from..]`.
fn tail_from(v: &Vec<char>, from: usize) -> (r: Vec<char>)
    requires
        from <= v@.len(),
    ensures
        r@ == v@.subrange(from as int, v@.len() as int),
{
    let n: usize = v.len();
    let mut r: Vec<char> = Vec::new();
    let mut i: usize = from;
    while i < n
        invariant
            from <= i <= n,
            n == v@.len(),
            r@ == v@.subrange(from as int, i as int),
        decreases n - i,
    {
        r.push(v[i]);
        assert(r@ =~= v@.subrange(from as int, i + 1));
        i = i + 1;
    }
    r
}

/// First pass of the filter, on characters.
fn strip_leading_punct(t: &Vec<char>) -> (r: Vec<char>)
    ensures
        r@ == strip_leading_punct_spec(t@),
{
    if t.len() > 0 && halluc_punct(t[0]) {
        let start = punct_space_end(t, 0);
        tail_from(t, start)
    } else {
        let r = tail_from(t, 0);
        assert(t@.subrange(0, t@.len() as int) =~= t@);
        r
    }
}

/// Second pass of the filter, on characters.
fn strip_short_word(s1: &Vec<char>) -> (r: Vec<char>)
    ensures
        r@ == strip_short_word_spec(s1@),
{
    let a = alnum_end(s1, 0);
    let n: usize = s1.len();
    if 1 <= a && a <= 4 && a < n && closing_punct(s1[a]) {
        let start = space_end(s1, a + 1);
        tail_from(s1, start)
    } else {
        let r = tail_from(s1, 0);
        assert(s1@.subrange(0, s1@.len() as int) =~= s1@);
        r
    }
}

/// Third pass of the filter, on characters.
fn strip_chain(s2: &Vec<char>) -> (r: Vec<char>)
    ensures
        r@ == strip_chain_spec(s2@),
{
    let n: usize = s2.len();
    let mut e: usize = 0;
    loop
        invariant
            e <= n,
            n == s2@.len(),
            chain_end_from_spec(s2@, 0) == chain_end_from_spec(s2@, e as int),
        ensures
            e <= n,
            e as int == chain_end_from_spec(s2@, 0),
        decreases n - e,
    {
        match chain_group_end(s2, e) {
            Some(next) => {
                e = next;
            },
            None => {
                proof {
                    assert(chain_end_from_spec(s2@, e as int) == e as int);
                }
                break ;
            },
        }
    }
    if e > 0 {
        tail_from(s2, e)
    } else {
        let r = tail_from(s2, 0);
        assert(s2@.subrange(0, s2@.len() as int) =~= s2@);
        r
    }
}

/// Whether none of the three passes finds anything to strip at the start of
/// a text.
pub open spec fn halluc_clean(s: Seq<char>) -> bool {
    &&& (s.len() == 0 || !is_halluc_punct(s[0]))
    &&& !short_word_matches(s)
    &&& chain_group_end_spec(s, 0) < 0
}

/// A trimmed text that none of the passes matches goes through the filter
/// unchanged.
pub proof fn lemma_filter_fixes_clean(t: Seq<char>)
    requires
        halluc_clean(t),
        crate::text::is_trimmed(t),
    ensures
        filter_hallucinations_spec(t) == t,
{
    crate::text::lemma_trimmed_fixed(t);
    assert(strip_leading_punct_spec(t) == t);
    assert(strip_short_word_spec(t) == t);
    assert(chain_end_from_spec(t, 0) == 0);
    assert(strip_chain_spec(t) == t);
}

/// Running the filter twice equals running it once, whenever its first run
/// settles: once the output opens with no strippable fragment, a second run
/// strips nothing. An output that itself opens like a hallucinated fragment
/// is stripped further by a second run, so the premise is the exact border
/// of the law.
pub proof fn lemma_filter_idempotent(s: Seq<char>)
    requires
        halluc_clean(filter_hallucinations_spec(s)),
    ensures
        filter_hallucinations_spec(filter_hallucinations_spec(s)) == filter_hallucinations_spec(
            s,
        ),
{
    crate::text::lemma_trim_is_trimmed(
        strip_chain_spec(strip_short_word_spec(strip_leading_punct_spec(trim_spec(s)))),
    );
    lemma_filter_fixes_clean(filter_hallucinations_spec(s));
}

/// Removes leading hallucinated fragments from a chunk transcription: a run
/// of punctuation, then a short punctuated word, then a chain of short
/// punctuated words, each at the very start of the trimmed text.
pub fn filter_chunk_hallucinations(text: &str) -> (r: String)
    ensures
        r@ == filter_hallucinations_spec(text@),
{
    let v0 = chars_of(text);
    let t = trim_chars(&v0);
    let s1 = strip_leading_punct(&t);
    let s2 = strip_short_word(&s1);
    let s3 = strip_chain(&s2);
    let out = trim_chars(&s3);
    string_from_chars(&out)
}

} // verus!
