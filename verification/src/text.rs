//! Character-level text utilities shared by the merger, the hallucination
//! filter, and the vocabulary: whitespace trimming, word splitting, and
//! joining, all specified over sequences of characters.

use vstd::prelude::*;

verus! {

/// The whitespace characters recognized by the text utilities.
pub open spec fn is_space_char(c: char) -> bool {
    c == ' ' || c == '\t' || c == '\n' || c == '\r'
}

/// The deep view of a vector of character vectors is the sequence of the
/// elements' views.
pub proof fn lemma_deep_view_chars(v: &Vec<Vec<char>>)
    ensures
        v.deep_view().len() == v@.len(),
        forall|i: int| 0 <= i < v@.len() ==> v.deep_view()[i] == #[trigger] v@[i]@,
{
    assert forall|i: int| 0 <= i < v@.len() implies v.deep_view()[i] == #[trigger] v@[i]@ by {
        assert(v@[i].deep_view() =~= v@[i]@);
    }
}

/// Runtime test for [`is_space_char`].
pub fn is_space(c: char) -> (r: bool)
    ensures
        r == is_space_char(c),
{
    c == ' ' || c == '\t' || c == '\n' || c == '\r'
}

/// The characters of a string slice, in order.
pub fn chars_of(s: &str) -> (r: Vec<char>)
    ensures
        r@ == s@,
{
    let n: usize = s.unicode_len();
    let mut r: Vec<char> = Vec::new();
    let mut i: usize = 0;
    while i < n
        invariant
            i <= n,
            n == s@.len(),
            r@ == s@.subrange(0, i as int),
        decreases n - i,
    {
        let c = s.get_char(i);
        r.push(c);
        i = i + 1;
    }
    assert(r@ =~= s@);
    r
}

/// Builds a `String` out of a character vector.
///
/// Relies on `String: FromIterator<char>`: collecting characters yields the
/// string consisting of exactly those characters in order.
#[verifier::external_body]
pub fn string_from_chars(v: &Vec<char>) -> (r: String)
    ensures
        r@ == v@,
{
    v.iter().collect()
}

/// Whether two character vectors hold the same characters.
pub fn chars_eq(a: &Vec<char>, b: &Vec<char>) -> (r: bool)
    ensures
        r == (a@ == b@),
{
    if a.len() != b.len() {
        assert(a@ !~= b@);
        return false;
    }
    let n: usize = a.len();
    let mut i: usize = 0;
    while i < n
        invariant
            i <= n,
            n == a@.len() == b@.len(),
            forall|j: int| 0 <= j < i ==> a@[j] == b@[j],
        decreases n - i,
    {
        if a[i] != b[i] {
            assert(a@ !~= b@);
            return false;
        }
        i = i + 1;
    }
    assert(a@ =~= b@);
    true
}

/// `s` with leading whitespace removed.
pub open spec fn trim_start_spec(s: Seq<char>) -> Seq<char>
    decreases s.len(),
{
    if s.len() == 0 {
        s
    } else if is_space_char(s[0]) {
        trim_start_spec(s.subrange(1, s.len() as int))
    } else {
        s
    }
}

/// `s` with trailing whitespace removed.
pub open spec fn trim_end_spec(s: Seq<char>) -> Seq<char>
    decreases s.len(),
{
    if s.len() == 0 {
        s
    } else if is_space_char(s[s.len() - 1]) {
        trim_end_spec(s.subrange(0, s.len() - 1))
    } else {
        s
    }
}

/// `s` with outer whitespace removed.
pub open spec fn trim_spec(s: Seq<char>) -> Seq<char> {
    trim_end_spec(trim_start_spec(s))
}

proof fn lemma_trim_start_skip(s: Seq<char>, k: int)
    requires
        0 <= k <= s.len(),
        forall|i: int| 0 <= i < k ==> is_space_char(s[i]),
        k == s.len() || !is_space_char(s[k]),
    ensures
        trim_start_spec(s) == s.subrange(k, s.len() as int),
    decreases k,
{
    if k == 0 {
        if s.len() == 0 {
            assert(trim_start_spec(s) =~= s.subrange(0, s.len() as int));
        } else {
            assert(trim_start_spec(s) == s);
            assert(s =~= s.subrange(0, s.len() as int));
        }
    } else {
        let t = s.subrange(1, s.len() as int);
        assert(is_space_char(s[0]));
        assert(trim_start_spec(s) == trim_start_spec(t));
        assert(forall|i: int| 0 <= i < k - 1 ==> is_space_char(t[i]));
        lemma_trim_start_skip(t, k - 1);
        assert(t.subrange(k - 1, t.len() as int) =~= s.subrange(k, s.len() as int));
    }
}

proof fn lemma_trim_end_take(s: Seq<char>, k: int)
    requires
        0 <= k <= s.len(),
        forall|i: int| k <= i < s.len() ==> is_space_char(s[i]),
        k == 0 || !is_space_char(s[k - 1]),
    ensures
        trim_end_spec(s) == s.subrange(0, k),
    decreases s.len() - k,
{
    if k == s.len() {
        if s.len() == 0 {
            assert(trim_end_spec(s) =~= s.subrange(0, k));
        } else {
            assert(trim_end_spec(s) == s);
            assert(s =~= s.subrange(0, k));
        }
    } else {
        let t = s.subrange(0, s.len() - 1);
        assert(is_space_char(s[s.len() - 1]));
        assert(trim_end_spec(s) == trim_end_spec(t));
        assert(forall|i: int| k <= i < t.len() ==> is_space_char(t[i]));
        lemma_trim_end_take(t, k);
        assert(t.subrange(0, k) =~= s.subrange(0, k));
    }
}

/// The trimmed view of a character vector.
pub fn trim_chars(v: &Vec<char>) -> (r: Vec<char>)
    ensures
        r@ == trim_spec(v@),
{
    let n: usize = v.len();
    let mut a: usize = 0;
    while a < n && is_space(v[a])
        invariant
            a <= n,
            n == v@.len(),
            forall|i: int| 0 <= i < a ==> is_space_char(v@[i]),
        decreases n - a,
    {
        a = a + 1;
    }
    proof {
        lemma_trim_start_skip(v@, a as int);
    }
    let ghost mid: Seq<char> = trim_start_spec(v@);
    let mut b: usize = n;
    while b > a && is_space(v[b - 1])
        invariant
            a <= b <= n,
            n == v@.len(),
            mid == v@.subrange(a as int, n as int),
            forall|i: int| b <= i < n ==> is_space_char(v@[i]),
        decreases b,
    {
        b = b - 1;
    }
    proof {
        if b == a {
            assert(forall|i: int| 0 <= i < mid.len() ==> is_space_char(mid[i])) by {
                assert(forall|i: int| 0 <= i < mid.len() ==> mid[i] == v@[a + i]);
            }
            lemma_trim_end_take(mid, 0);
        } else {
            assert(!is_space_char(v@[b - 1]));
            assert(forall|i: int| b - a <= i < mid.len() ==> is_space_char(mid[i])) by {
                assert(forall|i: int| 0 <= i < mid.len() ==> mid[i] == v@[a + i]);
            }
            assert(mid[b - a - 1] == v@[b - 1]);
            lemma_trim_end_take(mid, b - a);
        }
    }
    let mut r: Vec<char> = Vec::new();
    let mut i: usize = a;
    while i < b
        invariant
            a <= i <= b <= n,
            n == v@.len(),
            r@ == v@.subrange(a as int, i as int),
        decreases b - i,
    {
        r.push(v[i]);
        assert(r@ =~= v@.subrange(a as int, i + 1));
        i = i + 1;
    }
    proof {
        if b == a {
            assert(r@ =~= trim_end_spec(mid));
        } else {
            assert(mid.subrange(0, b - a) =~= v@.subrange(a as int, b as int));
        }
    }
    r
}

/// Index of the first non-space character at or after `i`.
pub open spec fn skip_spaces_spec(s: Seq<char>, i: int) -> int
    decreases s.len() - i,
{
    if i < 0 || i >= s.len() {
        i
    } else if is_space_char(s[i]) {
        skip_spaces_spec(s, i + 1)
    } else {
        i
    }
}

/// Index of the first space character (or the end) at or after `i`.
pub open spec fn word_end_spec(s: Seq<char>, i: int) -> int
    decreases s.len() - i,
{
    if i < 0 || i >= s.len() {
        i
    } else if is_space_char(s[i]) {
        i
    } else {
        word_end_spec(s, i + 1)
    }
}

pub proof fn lemma_skip_spaces_bounds(s: Seq<char>, i: int)
    requires
        0 <= i <= s.len(),
    ensures
        i <= skip_spaces_spec(s, i) <= s.len(),
        skip_spaces_spec(s, i) < s.len() ==> !is_space_char(s[skip_spaces_spec(s, i)]),
        forall|j: int| i <= j < skip_spaces_spec(s, i) ==> is_space_char(s[j]),
    decreases s.len() - i,
{
    if i < s.len() && is_space_char(s[i]) {
        lemma_skip_spaces_bounds(s, i + 1);
    }
}

pub proof fn lemma_word_end_bounds(s: Seq<char>, i: int)
    requires
        0 <= i <= s.len(),
    ensures
        i <= word_end_spec(s, i) <= s.len(),
        word_end_spec(s, i) < s.len() ==> is_space_char(s[word_end_spec(s, i)]),
        forall|j: int| i <= j < word_end_spec(s, i) ==> !is_space_char(s[j]),
    decreases s.len() - i,
{
    if i < s.len() && !is_space_char(s[i]) {
        lemma_word_end_bounds(s, i + 1);
    }
}

#[via_fn]
proof fn words_from_spec_decreases(s: Seq<char>, i: int) {
    if 0 <= i <= s.len() {
        lemma_skip_spaces_bounds(s, i);
        let j = skip_spaces_spec(s, i);
        if j < s.len() {
            lemma_word_end_bounds(s, j);
        }
    }
}

/// The whitespace-separated words of `s` starting at index `i`.
pub open spec fn words_from_spec(s: Seq<char>, i: int) -> Seq<Seq<char>>
    decreases s.len() - i,
    when 0 <= i <= s.len()
    via words_from_spec_decreases
{
    let j = skip_spaces_spec(s, i);
    if j >= s.len() {
        Seq::empty()
    } else {
        seq![s.subrange(j, word_end_spec(s, j))] + words_from_spec(s, word_end_spec(s, j))
    }
}

/// The whitespace-separated words of `s`.
pub open spec fn words_spec(s: Seq<char>) -> Seq<Seq<char>> {
    words_from_spec(s, 0)
}

/// The words joined with single spaces.
pub open spec fn join_words_spec(ws: Seq<Seq<char>>) -> Seq<char>
    decreases ws.len(),
{
    if ws.len() == 0 {
        Seq::empty()
    } else if ws.len() == 1 {
        ws[0]
    } else {
        ws[0] + seq![' '] + join_words_spec(ws.subrange(1, ws.len() as int))
    }
}

/// Splits a character vector into its whitespace-separated words.
pub fn split_words(v: &Vec<char>) -> (r: Vec<Vec<char>>)
    ensures
        r.deep_view() == words_spec(v@),
{
    let n: usize = v.len();
    let mut r: Vec<Vec<char>> = Vec::new();
    let mut i: usize = 0;
    while i < n
        invariant
            i <= n,
            n == v@.len(),
            r.deep_view() + words_from_spec(v@, i as int) == words_spec(v@),
        decreases n - i,
    {
        if is_space(v[i]) {
            proof {
                assert(skip_spaces_spec(v@, i as int) == skip_spaces_spec(v@, i + 1));
            }
            i = i + 1;
        } else {
            proof {
                lemma_word_end_bounds(v@, i as int);
            }
            let ghost je: int = word_end_spec(v@, i as int);
            let start: usize = i;
            let mut w: Vec<char> = Vec::new();
            while i < n && !is_space(v[i])
                invariant
                    start <= i <= n,
                    n == v@.len(),
                    je == word_end_spec(v@, start as int),
                    forall|j: int| start <= j < i ==> !is_space_char(v@[j]),
                    i <= je,
                    w@ == v@.subrange(start as int, i as int),
                decreases n - i,
            {
                proof {
                    lemma_word_end_bounds(v@, start as int);
                    if i < je {
                    } else {
                        assert(i == je);
                        assert(je < n ==> is_space_char(v@[je]));
                    }
                }
                w.push(v[i]);
                assert(w@ =~= v@.subrange(start as int, i + 1));
                i = i + 1;
            }
            proof {
                lemma_word_end_bounds(v@, start as int);
                assert(i == je) by {
                    if i < je {
                        assert(!is_space_char(v@[i as int]) ==> i < n);
                        assert(is_space_char(v@[i as int]));
                        assert(!is_space_char(v@[i as int]));
                    }
                }
                assert(skip_spaces_spec(v@, start as int) == start);
            }
            let ghost old_r = r.deep_view();
            let ghost old_rq = r@;
            proof {
                lemma_deep_view_chars(&r);
            }
            r.push(w);
            proof {
                lemma_deep_view_chars(&r);
                assert(r@ == old_rq.push(w));
                assert(w@ == v@.subrange(start as int, je));
                assert(r.deep_view() =~= old_r + seq![v@.subrange(start as int, je)]) by {
                    assert(r.deep_view().len() == old_r.len() + 1);
                    assert(forall|j: int| 0 <= j < old_r.len() ==> r@[j] == old_rq[j]);
                    assert(r@[old_r.len() as int] == w);
                }
                assert(words_from_spec(v@, start as int) == seq![v@.subrange(start as int, je)]
                    + words_from_spec(v@, je));
                assert(old_r + (seq![v@.subrange(start as int, je)] + words_from_spec(v@, je))
                    =~= (old_r + seq![v@.subrange(start as int, je)]) + words_from_spec(v@, je));
            }
        }
    }
    proof {
        assert(words_from_spec(v@, n as int) =~= Seq::<Seq<char>>::empty());
        assert(r.deep_view() =~= r.deep_view() + Seq::<Seq<char>>::empty());
    }
    r
}

/// Joins words with single spaces.
pub fn join_words(ws: &Vec<Vec<char>>) -> (r: Vec<char>)
    ensures
        r@ == join_words_spec(ws.deep_view()),
{
    let n: usize = ws.len();
    let mut r: Vec<char> = Vec::new();
    proof {
        lemma_deep_view_chars(ws);
    }
    if n == 0 {
        assert(r@ =~= join_words_spec(ws.deep_view()));
        return r;
    }
    let mut i: usize = 0;
    while i < n
        invariant
            i <= n,
            0 < n == ws.deep_view().len(),
            ws.deep_view().len() == ws@.len(),
            forall|j: int| 0 <= j < n ==> ws.deep_view()[j] == #[trigger] ws@[j]@,
            i == 0 ==> r@ == Seq::<char>::empty(),
            0 < i ==> r@ == join_words_spec(ws.deep_view().subrange(0, i as int)),
        decreases n - i,
    {
        if i > 0 {
            r.push(' ');
        }
        let ghost before = r@;
        let w = &ws[i];
        let mut k: usize = 0;
        let wn: usize = w.len();
        while k < wn
            invariant
                k <= wn,
                wn == w@.len(),
                r@ == before + w@.subrange(0, k as int),
            decreases wn - k,
        {
            r.push(w[k]);
            assert(r@ =~= before + w@.subrange(0, k + 1));
            k = k + 1;
        }
        proof {
            assert(w@.subrange(0, wn as int) =~= w@);
            let dv = ws.deep_view();
            if i == 0 {
                assert(r@ =~= dv[0]);
                assert(dv.subrange(0, 1) =~= seq![dv[0]]);
                assert(join_words_spec(dv.subrange(0, 1)) == dv[0]);
            } else {
                lemma_join_words_snoc(dv.subrange(0, i as int), dv[i as int]);
                assert(dv.subrange(0, i as int).push(dv[i as int]) =~= dv.subrange(0, i + 1));
                assert(r@ =~= join_words_spec(dv.subrange(0, i as int)) + seq![' '] + dv[i as int]);
            }
        }
        i = i + 1;
    }
    proof {
        assert(ws.deep_view().subrange(0, n as int) =~= ws.deep_view());
    }
    r
}

/// Appending a word to a non-empty word list appends a space and the word.
pub proof fn lemma_join_words_snoc(ws: Seq<Seq<char>>, w: Seq<char>)
    requires
        ws.len() > 0,
    ensures
        join_words_spec(ws.push(w)) == join_words_spec(ws) + seq![' '] + w,
    decreases ws.len(),
{
    let p = ws.push(w);
    if ws.len() == 1 {
        assert(p.subrange(1, p.len() as int) =~= seq![w]);
        assert(join_words_spec(p) == p[0] + seq![' '] + join_words_spec(seq![w]));
    } else {
        let wsub = ws.subrange(1, ws.len() as int);
        lemma_join_words_snoc(wsub, w);
        assert(p.subrange(1, p.len() as int) =~= wsub.push(w));
        assert(join_words_spec(p) == p[0] + seq![' '] + join_words_spec(wsub.push(w)));
        assert(ws[0] + seq![' '] + (join_words_spec(wsub) + seq![' '] + w) =~= (ws[0] + seq![' ']
            + join_words_spec(wsub)) + seq![' '] + w);
    }
}

/// Ceiling division for non-negative numerator and positive denominator.
pub open spec fn div_ceil_spec(a: int, b: int) -> int {
    (a + b - 1) / b
}

/// Whether a text carries no outer whitespace.
pub open spec fn is_trimmed(s: Seq<char>) -> bool {
    s.len() == 0 || (!is_space_char(s[0]) && !is_space_char(s[s.len() - 1]))
}

proof fn lemma_trim_start_front(s: Seq<char>)
    ensures
        trim_start_spec(s).len() == 0 || !is_space_char(trim_start_spec(s)[0]),
        forall|i: int|
            0 <= i < trim_start_spec(s).len() ==> trim_start_spec(s)[i] == s[i + s.len()
                - trim_start_spec(s).len()],
        trim_start_spec(s).len() <= s.len(),
    decreases s.len(),
{
    if s.len() > 0 && is_space_char(s[0]) {
        lemma_trim_start_front(s.subrange(1, s.len() as int));
    }
}

proof fn lemma_trim_end_prefix(s: Seq<char>)
    ensures
        trim_end_spec(s).len() == 0 || !is_space_char(
            trim_end_spec(s)[trim_end_spec(s).len() - 1],
        ),
        forall|i: int| 0 <= i < trim_end_spec(s).len() ==> trim_end_spec(s)[i] == s[i],
        trim_end_spec(s).len() <= s.len(),
    decreases s.len(),
{
    if s.len() > 0 && is_space_char(s[s.len() - 1]) {
        let p = s.subrange(0, s.len() - 1);
        lemma_trim_end_prefix(p);
        assert(forall|i: int| 0 <= i < p.len() ==> p[i] == s[i]);
    }
}

/// A trim's result carries no outer whitespace.
pub proof fn lemma_trim_is_trimmed(s: Seq<char>)
    ensures
        is_trimmed(trim_spec(s)),
{
    lemma_trim_start_front(s);
    lemma_trim_end_prefix(trim_start_spec(s));
}

/// A text without outer whitespace trims to itself.
pub proof fn lemma_trimmed_fixed(s: Seq<char>)
    requires
        is_trimmed(s),
    ensures
        trim_spec(s) == s,
{
    if s.len() == 0 {
        assert(trim_start_spec(s) == s);
        assert(trim_end_spec(s) == s);
    } else {
        assert(trim_start_spec(s) == s);
        assert(trim_end_spec(s) == s);
    }
}

} // verus!
