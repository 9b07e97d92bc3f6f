//! Vocabulary loading and token-to-text decoding.
//!
//! Two on-disk formats are accepted: a JSON object mapping decimal ids to
//! token strings, and a text format with one `token id` entry per line, the
//! rightmost space separating the id. The blank token id is 8192 by
//! contract. A SentencePiece word-boundary marker prefixes word-initial
//! subwords and is rendered as a space.

use vstd::prelude::*;

use crate::error::AsrError;
use crate::text::{chars_of, chars_eq, string_from_chars, trim_chars, trim_spec};

verus! {

/// Ids at or past this limit are treated as unparseable: no vocabulary of
/// such a size could be allocated.
pub const VOCAB_ID_LIMIT: usize = 0x1000_0000;

// ---------------------------------------------------------------------------
// Decimal id parsing
// ---------------------------------------------------------------------------

pub open spec fn is_digit_char(c: char) -> bool {
    '0' <= c && c <= '9'
}

pub open spec fn digit_val_spec(c: char) -> int {
    c as int - '0' as int
}

/// The value of a digit string, most significant digit first.
pub open spec fn dec_val_spec(s: Seq<char>) -> int
    decreases s.len(),
{
    if s.len() == 0 {
        0
    } else {
        dec_val_spec(s.subrange(0, s.len() - 1)) * 10 + digit_val_spec(s[s.len() - 1])
    }
}

pub open spec fn is_dec_string(s: Seq<char>) -> bool {
    s.len() > 0 && forall|i: int| 0 <= i < s.len() ==> is_digit_char(#[trigger] s[i])
}

/// The parsed id of a digit string, if it is one and lies under the limit.
pub open spec fn parse_id_spec(s: Seq<char>) -> Option<int> {
    if is_dec_string(s) && dec_val_spec(s) < VOCAB_ID_LIMIT as int {
        Some(dec_val_spec(s))
    } else {
        None
    }
}

proof fn lemma_dec_val_nonneg(s: Seq<char>)
    requires
        forall|i: int| 0 <= i < s.len() ==> is_digit_char(#[trigger] s[i]),
    ensures
        dec_val_spec(s) >= 0,
    decreases s.len(),
{
    if s.len() > 0 {
        let p = s.subrange(0, s.len() - 1);
        lemma_dec_val_nonneg(p);
        assert(dec_val_spec(p) * 10 >= 0) by (nonlinear_arith)
            requires
                dec_val_spec(p) >= 0,
        ;
    }
}

proof fn lemma_dec_val_prefix_le(s: Seq<char>, i: int)
    requires
        0 <= i <= s.len(),
        forall|j: int| 0 <= j < s.len() ==> is_digit_char(#[trigger] s[j]),
    ensures
        dec_val_spec(s.subrange(0, i)) <= dec_val_spec(s),
    decreases s.len() - i,
{
    if i < s.len() {
        let p = s.subrange(0, s.len() - 1);
        assert(forall|j: int| 0 <= j < p.len() ==> is_digit_char(#[trigger] p[j]));
        lemma_dec_val_nonneg(p);
        assert(dec_val_spec(p) * 10 >= dec_val_spec(p)) by (nonlinear_arith)
            requires
                dec_val_spec(p) >= 0,
        ;
        if i == s.len() - 1 {
            assert(s.subrange(0, i) =~= p);
        } else {
            lemma_dec_val_prefix_le(p, i);
            assert(p.subrange(0, i) =~= s.subrange(0, i));
        }
    } else {
        assert(s.subrange(0, i) =~= s);
    }
}

/// Parses the digit range `v[from..to]` into an id under the limit.
fn parse_id_range(v: &Vec<char>, from: usize, to: usize) -> (r: Option<usize>)
    requires
        from <= to <= v@.len(),
    ensures
        match r {
            Some(id) => parse_id_spec(v@.subrange(from as int, to as int)) == Some(id as int) && id
                < VOCAB_ID_LIMIT,
            None => parse_id_spec(v@.subrange(from as int, to as int)) is None,
        },
{
    let ghost s = v@.subrange(from as int, to as int);
    if from == to {
        return None;
    }
    let mut val: usize = 0;
    let mut i: usize = from;
    while i < to
        invariant
            from <= i <= to <= v@.len(),
            s == v@.subrange(from as int, to as int),
            forall|j: int| 0 <= j < i - from ==> is_digit_char(#[trigger] s[j]),
            val as int == dec_val_spec(s.subrange(0, i - from)),
            val < VOCAB_ID_LIMIT,
        decreases to - i,
    {
        let c = v[i];
        if !('0' <= c && c <= '9') {
            proof {
                assert(s[i - from] == c);
                assert(!is_dec_string(s));
            }
            return None;
        }
        let d: usize = (c as usize) - ('0' as usize);
        proof {
            assert(s[i - from] == c);
            assert(s.subrange(0, i - from + 1).subrange(0, (i - from + 1) - 1) =~= s.subrange(
                0,
                i - from,
            ));
            assert(s.subrange(0, i - from + 1)[i - from] == c);
            assert(dec_val_spec(s.subrange(0, i - from + 1)) == dec_val_spec(
                s.subrange(0, i - from),
            ) * 10 + digit_val_spec(c));
        }
        if val > (VOCAB_ID_LIMIT - 1 - d) / 10 {
            proof {
                assert(val as int * 10 + d as int >= VOCAB_ID_LIMIT as int);
                if is_dec_string(s) {
                    lemma_dec_val_prefix_le(s, i - from + 1);
                }
            }
            return None;
        }
        val = val * 10 + d;
        i = i + 1;
    }
    proof {
        assert(s.subrange(0, to - from) =~= s);
        assert(is_dec_string(s));
    }
    Some(val)
}

// ---------------------------------------------------------------------------
// Lines
// ---------------------------------------------------------------------------

/// Index of the next newline at or after `i`, or the end.
pub open spec fn line_end_spec(s: Seq<char>, i: int) -> int
    decreases s.len() - i,
{
    if i < 0 || i >= s.len() {
        i
    } else if s[i] == '\n' {
        i
    } else {
        line_end_spec(s, i + 1)
    }
}

pub proof fn lemma_line_end_bounds(s: Seq<char>, i: int)
    requires
        0 <= i <= s.len(),
    ensures
        i <= line_end_spec(s, i) <= s.len(),
    decreases s.len() - i,
{
    if i < s.len() && s[i] != '\n' {
        lemma_line_end_bounds(s, i + 1);
    }
}

#[via_fn]
proof fn lines_from_spec_decreases(s: Seq<char>, i: int) {
    if 0 <= i <= s.len() {
        lemma_line_end_bounds(s, i);
    }
}

/// The newline-separated lines of `s` from index `i` on.
pub open spec fn lines_from_spec(s: Seq<char>, i: int) -> Seq<Seq<char>>
    decreases s.len() + 1 - i,
    when 0 <= i <= s.len() + 1
    via lines_from_spec_decreases
{
    if i < 0 || i >= s.len() {
        Seq::empty()
    } else {
        let e = line_end_spec(s, i);
        seq![s.subrange(i, e)] + lines_from_spec(s, e + 1)
    }
}

/// The newline-separated lines of `s`; a trailing newline adds no line.
pub open spec fn lines_spec(s: Seq<char>) -> Seq<Seq<char>> {
    lines_from_spec(s, 0)
}

proof fn lemma_line_end_eq(s: Seq<char>, start: int, i: int)
    requires
        0 <= start <= i <= s.len(),
        forall|j: int| start <= j < i ==> s[j] != '\n',
        i == s.len() || s[i] == '\n',
    ensures
        line_end_spec(s, start) == i,
    decreases i - start,
{
    if start < i {
        lemma_line_end_eq(s, start + 1, i);
    }
}

/// Splits a character vector into lines.
fn split_lines(v: &Vec<char>) -> (r: Vec<Vec<char>>)
    ensures
        r.deep_view() == lines_spec(v@),
{
    let n: usize = v.len();
    let mut r: Vec<Vec<char>> = Vec::new();
    let mut i: usize = 0;
    proof {
        assert(r.deep_view() + lines_from_spec(v@, 0) =~= lines_spec(v@));
    }
    while i < n
        invariant
            i <= n + 1,
            n == v@.len(),
            r.deep_view() + lines_from_spec(v@, i as int) == lines_spec(v@),
        decreases n + 1 - i,
    {
        let start: usize = i;
        let mut line: Vec<char> = Vec::new();
        while i < n && v[i] != '\n'
            invariant
                start <= i <= n,
                n == v@.len(),
                forall|j: int| start <= j < i ==> v@[j] != '\n',
                line@ == v@.subrange(start as int, i as int),
            decreases n - i,
        {
            line.push(v[i]);
            assert(line@ =~= v@.subrange(start as int, i + 1));
            i = i + 1;
        }
        proof {
            lemma_line_end_eq(v@, start as int, i as int);
        }
        let ghost old_dv = r.deep_view();
        proof {
            crate::text::lemma_deep_view_chars(&r);
        }
        r.push(line);
        proof {
            crate::text::lemma_deep_view_chars(&r);
            assert(r.deep_view() =~= old_dv + seq![v@.subrange(start as int, i as int)]) by {
                assert(forall|j: int| 0 <= j < old_dv.len() ==> r.deep_view()[j] == old_dv[j]);
            }
            let rest = lines_from_spec(v@, i + 1);
            assert(lines_from_spec(v@, start as int) == seq![v@.subrange(start as int, i as int)]
                + rest);
            assert((old_dv + seq![v@.subrange(start as int, i as int)]) + rest =~= old_dv + (seq![
                v@.subrange(start as int, i as int),
            ] + rest));
        }
        if i == n {
            // The last line had no trailing newline; everything is consumed.
            proof {
                assert(lines_from_spec(v@, n + 1) =~= Seq::<Seq<char>>::empty());
                assert(r.deep_view() + Seq::<Seq<char>>::empty() =~= r.deep_view());
            }
            return r;
        }
        i = i + 1;
    }
    proof {
        assert(lines_from_spec(v@, i as int) =~= Seq::<Seq<char>>::empty());
        assert(r.deep_view() + Seq::<Seq<char>>::empty() =~= r.deep_view());
    }
    r
}

// ---------------------------------------------------------------------------
// Entries
// ---------------------------------------------------------------------------

/// Index of the rightmost space at or below `i`, or -1.
pub open spec fn rfind_space_spec(l: Seq<char>, i: int) -> int
    decreases i + 1,
{
    if i < 0 {
        -1
    } else if 0 <= i < l.len() && l[i] == ' ' {
        i
    } else {
        rfind_space_spec(l, i - 1)
    }
}

/// The `(id, token)` entry of one line of the text format, if the line
/// holds one: the line is trimmed, the rightmost space separates token from
/// id, and the id is decimal.
pub open spec fn txt_entry_spec(line: Seq<char>) -> Option<(int, Seq<char>)> {
    let t = trim_spec(line);
    if t.len() == 0 {
        None
    } else {
        let k = rfind_space_spec(t, t.len() - 1);
        if k < 0 {
            None
        } else {
            match parse_id_spec(t.subrange(k + 1, t.len() as int)) {
                Some(id) => Some((id, t.subrange(0, k))),
                None => None,
            }
        }
    }
}

/// The entries of the text format, line by line from index `i`.
pub open spec fn txt_entries_spec(lines: Seq<Seq<char>>, i: int) -> Seq<(int, Seq<char>)>
    decreases lines.len() - i,
    when 0 <= i <= lines.len()
{
    if i >= lines.len() {
        Seq::empty()
    } else {
        match txt_entry_spec(lines[i]) {
            Some(e) => seq![e] + txt_entries_spec(lines, i + 1),
            None => txt_entries_spec(lines, i + 1),
        }
    }
}

/// The token of the last entry carrying `id`, if any.
pub open spec fn last_value_for(entries: Seq<(int, Seq<char>)>, id: int) -> Option<Seq<char>>
    decreases entries.len(),
{
    if entries.len() == 0 {
        None
    } else if entries[entries.len() - 1].0 == id {
        Some(entries[entries.len() - 1].1)
    } else {
        last_value_for(entries.subrange(0, entries.len() - 1), id)
    }
}

/// The id of the last entry carrying token `tok`, if any.
pub open spec fn last_id_for(entries: Seq<(int, Seq<char>)>, tok: Seq<char>) -> Option<int>
    decreases entries.len(),
{
    if entries.len() == 0 {
        None
    } else if entries[entries.len() - 1].1 == tok {
        Some(entries[entries.len() - 1].0)
    } else {
        last_id_for(entries.subrange(0, entries.len() - 1), tok)
    }
}

/// The largest id among the entries, or -1.
pub open spec fn max_entry_id(entries: Seq<(int, Seq<char>)>) -> int
    decreases entries.len(),
{
    if entries.len() == 0 {
        -1
    } else {
        let rest = max_entry_id(entries.subrange(0, entries.len() - 1));
        if entries[entries.len() - 1].0 > rest {
            entries[entries.len() - 1].0
        } else {
            rest
        }
    }
}

/// Snoc-style unfoldings of the entry summaries.
pub proof fn lemma_entries_snoc(
    entries: Seq<(int, Seq<char>)>,
    e: (int, Seq<char>),
    id: int,
    tok: Seq<char>,
)
    ensures
        last_value_for(entries.push(e), id) == if e.0 == id {
            Some(e.1)
        } else {
            last_value_for(entries, id)
        },
        last_id_for(entries.push(e), tok) == if e.1 == tok {
            Some(e.0)
        } else {
            last_id_for(entries, tok)
        },
        max_entry_id(entries.push(e)) == if e.0 > max_entry_id(entries) {
            e.0
        } else {
            max_entry_id(entries)
        },
{
    let p = entries.push(e);
    assert(p[p.len() - 1] == e);
    assert(p.subrange(0, p.len() - 1) =~= entries);
}

/// Ids above the maximum have no entry.
pub proof fn lemma_no_value_above_max(entries: Seq<(int, Seq<char>)>, id: int)
    requires
        id > max_entry_id(entries),
    ensures
        last_value_for(entries, id) is None,
    decreases entries.len(),
{
    if entries.len() > 0 {
        lemma_no_value_above_max(entries.subrange(0, entries.len() - 1), id);
    }
}

// ---------------------------------------------------------------------------
// Vocabulary
// ---------------------------------------------------------------------------

/// The token-id to subword mapping used for decoding.
#[derive(Debug)]
pub struct Vocabulary {
    /// The token text for each id; absent ids hold the empty string.
    pub tokens: Vec<String>,
    /// The blank token id.
    pub blank_id: usize,
    /// The id reported for unknown tokens.
    pub unk_id: usize,
}

/// The views of a token table.
pub open spec fn token_views(tokens: Seq<String>) -> Seq<Seq<char>> {
    Seq::new(tokens.len(), |i: int| tokens[i]@)
}

/// What a token table looks like after applying `entries` over an initial
/// all-empty table of `init_len` slots: grown to the largest id, and for
/// every id the last entry wins.
pub open spec fn tokens_match_entries(
    tokens: Seq<Seq<char>>,
    entries: Seq<(int, Seq<char>)>,
    init_len: int,
) -> bool {
    &&& tokens.len() == if max_entry_id(entries) + 1 > init_len {
        max_entry_id(entries) + 1
    } else {
        init_len
    }
    &&& forall|id: int|
        0 <= id < tokens.len() ==> tokens[id] == match last_value_for(entries, id) {
            Some(v) => v,
            None => Seq::<char>::empty(),
        }
}

impl Vocabulary {
    /// The number of token slots.
    pub fn vocab_size(&self) -> (r: usize)
        ensures
            r == self.tokens@.len(),
    {
        self.tokens.len()
    }

    /// The token text for an id; `<unk>` for out-of-range ids.
    pub fn decode_token(&self, id: usize) -> (r: &str)
        ensures
            r@ == if id < self.tokens@.len() {
                self.tokens@[id as int]@
            } else {
                "<unk>"@
            },
    {
        if id < self.tokens.len() {
            self.tokens[id].as_str()
        } else {
            "<unk>"
        }
    }

    /// Only the blank token is special for TDT decoding.
    pub fn is_special_token(&self, id: usize) -> (r: bool)
        ensures
            r == (id == self.blank_id),
    {
        id == self.blank_id
    }

    /// Loads the text format: one `token id` entry per line, rightmost
    /// space as the separator; later entries win; `<unk>` and `<blk>`
    /// resolve the special ids, with 0 and 8192 as their defaults.
    pub fn load_txt(content: &str) -> (r: Vocabulary)
        ensures
            vocab_from_txt(r, content@),
    {
        let v = chars_of(content);
        let lines = split_lines(&v);
        let unk_pat = chars_of("<unk>");
        let blk_pat = chars_of("<blk>");
        let mut tokens: Vec<String> = Vec::new();
        let mut unk_found: bool = false;
        let mut unk_id: usize = 0;
        let mut blk_found: bool = false;
        let mut blk_id: usize = 0;
        let n: usize = lines.len();
        let ghost all_lines = lines.deep_view();
        let ghost full = txt_entries_spec(all_lines, 0);
        let ghost mut done: Seq<(int, Seq<char>)> = Seq::empty();
        proof {
            crate::text::lemma_deep_view_chars(&lines);
            assert(done + txt_entries_spec(all_lines, 0) =~= full);
        }
        let mut i: usize = 0;
        while i < n
            invariant
                i <= n,
                n == lines@.len(),
                all_lines == lines.deep_view(),
                all_lines.len() == n,
                forall|j: int| 0 <= j < n ==> all_lines[j] == #[trigger] lines@[j]@,
                unk_pat@ == "<unk>"@,
                blk_pat@ == "<blk>"@,
                full == txt_entries_spec(all_lines, 0),
                done + txt_entries_spec(all_lines, i as int) == full,
                tokens@.len() <= VOCAB_ID_LIMIT,
                tokens_match_entries(token_views(tokens@), done, 0),
                match last_id_for(done, "<unk>"@) {
                    Some(k) => unk_found && unk_id as int == k,
                    None => !unk_found,
                },
                !unk_found ==> unk_id == 0,
                match last_id_for(done, "<blk>"@) {
                    Some(k) => blk_found && blk_id as int == k,
                    None => !blk_found,
                },
            decreases n - i,
        {
            let line: Vec<char> = lines[i].clone();
            assert(line@ == all_lines[i as int]);
            let entry = parse_txt_entry(&line);
            match entry {
                Some((id, tok)) => {
                    let ghost e = (id as int, tok@);
                    assert(txt_entry_spec(all_lines[i as int]) == Some(e));
                    assert(txt_entries_spec(all_lines, i as int) == seq![e] + txt_entries_spec(
                        all_lines,
                        i + 1,
                    ));
                    if chars_eq(&tok, &unk_pat) {
                        unk_found = true;
                        unk_id = id;
                    }
                    if chars_eq(&tok, &blk_pat) {
                        blk_found = true;
                        blk_id = id;
                    }
                    let tok_string = string_from_chars(&tok);
                    let ghost old_tokens = tokens@;
                    tokens = place_token(tokens, id, tok_string);
                    proof {
                        let pre = done;
                        done = done.push(e);
                        assert(done + txt_entries_spec(all_lines, i + 1) =~= full) by {
                            assert(pre + (seq![e] + txt_entries_spec(all_lines, i + 1)) =~= (
                            pre.push(e)) + txt_entries_spec(all_lines, i + 1));
                        }
                        lemma_entries_snoc(pre, e, 0, "<unk>"@);
                        lemma_entries_snoc(pre, e, 0, "<blk>"@);
                        lemma_entries_snoc(pre, e, e.0, Seq::<char>::empty());
                        assert(tokens_match_entries(token_views(old_tokens), pre, 0));
                        assert(old_tokens.len() == if max_entry_id(pre) + 1 > 0 {
                            max_entry_id(pre) + 1
                        } else {
                            0int
                        });
                        assert(token_views(tokens@).len() == tokens@.len());
                        assert(tokens@.len() == if max_entry_id(done) + 1 > 0 {
                            max_entry_id(done) + 1
                        } else {
                            0int
                        });
                        assert forall|id2: int| 0 <= id2 < token_views(tokens@).len() implies
                            token_views(tokens@)[id2] == (match last_value_for(done, id2) {
                            Some(v) => v,
                            None => Seq::<char>::empty(),
                        }) by {
                            lemma_entries_snoc(pre, e, id2, Seq::<char>::empty());
                            assert(token_views(tokens@)[id2] == tokens@[id2]@);
                            if id2 == e.0 {
                                assert(tokens@[id2]@ == tok@);
                            } else if id2 < old_tokens.len() {
                                assert(tokens@[id2]@ == old_tokens[id2]@);
                                assert(token_views(old_tokens)[id2] == old_tokens[id2]@);
                                assert(token_views(old_tokens)[id2] == (match last_value_for(
                                    pre,
                                    id2,
                                ) {
                                    Some(v) => v,
                                    None => Seq::<char>::empty(),
                                }));
                            } else {
                                assert(tokens@[id2]@ == Seq::<char>::empty());
                                assert(id2 > max_entry_id(pre));
                                lemma_no_value_above_max(pre, id2);
                            }
                        }
                        assert(tokens_match_entries(token_views(tokens@), done, 0));
                    }
                },
                None => {
                    assert(txt_entry_spec(all_lines[i as int]) is None);
                    assert(txt_entries_spec(all_lines, i as int) == txt_entries_spec(
                        all_lines,
                        i + 1,
                    ));
                },
            }
            i = i + 1;
        }
        proof {
            assert(txt_entries_spec(all_lines, n as int) =~= Seq::<(int, Seq<char>)>::empty());
            assert(done + Seq::<(int, Seq<char>)>::empty() =~= done);
        }
        let blank_id: usize = if blk_found {
            blk_id
        } else {
            8192
        };
        Vocabulary { tokens, blank_id, unk_id }
    }
}

/// The view of a pair list as sequences of characters.
pub open spec fn pairs_view(pairs: Seq<(String, String)>) -> Seq<(Seq<char>, Seq<char>)> {
    Seq::new(pairs.len(), |i: int| (pairs[i].0@, pairs[i].1@))
}

/// What a JSON object of string values parses to: its `(key, value)` pairs
/// ordered by key, or nothing when the text is not such an object.
pub uninterp spec fn json_string_map_of(s: Seq<char>) -> Option<Seq<(Seq<char>, Seq<char>)>>;

/// Relies on serde_json::from_str deserializing a JSON object into a
/// `BTreeMap<String, String>`: the map holds the object's entries ordered by
/// key, and deserialization fails exactly when the text is not such an
/// object.
#[verifier::external_body]
fn parse_json_string_map(s: &str) -> (r: Option<Vec<(String, String)>>)
    ensures
        match r {
            Some(pairs) => json_string_map_of(s@) == Some(pairs_view(pairs@)),
            None => json_string_map_of(s@) is None,
        },
{
    match serde_json::from_str::<std::collections::BTreeMap<String, String>>(s) {
        Ok(m) => Some(m.into_iter().collect()),
        Err(_) => None,
    }
}

/// The entry a JSON pair contributes, when its key is a decimal id.
pub open spec fn json_entry_spec(pair: (Seq<char>, Seq<char>)) -> Option<(int, Seq<char>)> {
    match parse_id_spec(pair.0) {
        Some(id) => Some((id, pair.1)),
        None => None,
    }
}

/// The entries of the JSON format, pair by pair from index `i`.
pub open spec fn json_entries_spec(pairs: Seq<(Seq<char>, Seq<char>)>, i: int) -> Seq<
    (int, Seq<char>),
>
    decreases pairs.len() - i,
    when 0 <= i <= pairs.len()
{
    if i >= pairs.len() {
        Seq::empty()
    } else {
        match json_entry_spec(pairs[i]) {
            Some(e) => seq![e] + json_entries_spec(pairs, i + 1),
            None => json_entries_spec(pairs, i + 1),
        }
    }
}

/// What loading the text format yields.
pub open spec fn vocab_from_txt(r: Vocabulary, content: Seq<char>) -> bool {
    let entries = txt_entries_spec(lines_spec(content), 0);
    &&& tokens_match_entries(token_views(r.tokens@), entries, 0)
    &&& r.unk_id as int == match last_id_for(entries, "<unk>"@) {
        Some(i) => i,
        None => 0,
    }
    &&& r.blank_id as int == match last_id_for(entries, "<blk>"@) {
        Some(i) => i,
        None => 8192,
    }
}

/// What loading the JSON format yields for parsed pairs: one slot even when
/// nothing parses, the blank id fixed at 8192.
pub open spec fn vocab_from_json_pairs(r: Vocabulary, pairs: Seq<(Seq<char>, Seq<char>)>) -> bool {
    let entries = json_entries_spec(pairs, 0);
    &&& tokens_match_entries(token_views(r.tokens@), entries, 1)
    &&& r.unk_id as int == match last_id_for(entries, "<unk>"@) {
        Some(i) => i,
        None => 0,
    }
    &&& r.blank_id == 8192
}

impl Vocabulary {
    /// Loads the JSON format: an object mapping decimal string ids to token
    /// strings; the blank id is 8192 by contract.
    pub fn load_json(content: &str) -> (r: Result<Vocabulary, AsrError>)
        ensures
            match json_string_map_of(content@) {
                Some(pairs) => r matches Ok(v) && vocab_from_json_pairs(v, pairs),
                None => r matches Err(e) && e matches AsrError::Vocabulary(_),
            },
    {
        let parsed = parse_json_string_map(content);
        let pairs: Vec<(String, String)> = match parsed {
            Some(p) => p,
            None => {
                return Err(AsrError::Vocabulary("unparseable vocabulary JSON".to_owned()));
            },
        };
        let ghost pview = pairs_view(pairs@);
        let ghost full = json_entries_spec(pview, 0);
        let unk_pat = chars_of("<unk>");
        let mut tokens: Vec<String> = Vec::new();
        let first_slot = String::new();
        tokens.push(first_slot);
        let mut unk_found: bool = false;
        let mut unk_id: usize = 0;
        let n: usize = pairs.len();
        let ghost mut done: Seq<(int, Seq<char>)> = Seq::empty();
        proof {
            assert(done + json_entries_spec(pview, 0) =~= full);
            assert(token_views(tokens@) =~= seq![Seq::<char>::empty()]);
        }
        let mut i: usize = 0;
        while i < n
            invariant
                i <= n,
                n == pairs@.len(),
                pview == pairs_view(pairs@),
                pview.len() == n,
                unk_pat@ == "<unk>"@,
                full == json_entries_spec(pview, 0),
                done + json_entries_spec(pview, i as int) == full,
                tokens@.len() <= VOCAB_ID_LIMIT,
                tokens_match_entries(token_views(tokens@), done, 1),
                match last_id_for(done, "<unk>"@) {
                    Some(k) => unk_found && unk_id as int == k,
                    None => !unk_found,
                },
                !unk_found ==> unk_id == 0,
            decreases n - i,
        {
            let key: Vec<char> = chars_of(pairs[i].0.as_str());
            assert(key@ == pview[i as int].0);
            let id_opt = parse_id_range(&key, 0, key.len());
            proof {
                assert(key@.subrange(0, key@.len() as int) =~= key@);
            }
            match id_opt {
                Some(id) => {
                    let tok: Vec<char> = chars_of(pairs[i].1.as_str());
                    assert(tok@ == pview[i as int].1);
                    let ghost e = (id as int, tok@);
                    assert(json_entry_spec(pview[i as int]) == Some(e));
                    assert(json_entries_spec(pview, i as int) == seq![e] + json_entries_spec(
                        pview,
                        i + 1,
                    ));
                    if chars_eq(&tok, &unk_pat) {
                        unk_found = true;
                        unk_id = id;
                    }
                    let tok_string = string_from_chars(&tok);
                    let ghost old_tokens = tokens@;
                    tokens = place_token(tokens, id, tok_string);
                    proof {
                        let pre = done;
                        done = done.push(e);
                        assert(done + json_entries_spec(pview, i + 1) =~= full) by {
                            assert(pre + (seq![e] + json_entries_spec(pview, i + 1)) =~= (pre.push(
                                e,
                            )) + json_entries_spec(pview, i + 1));
                        }
                        lemma_entries_snoc(pre, e, 0, "<unk>"@);
                        lemma_entries_snoc(pre, e, e.0, Seq::<char>::empty());
                        assert(tokens_match_entries(token_views(old_tokens), pre, 1));
                        assert forall|id2: int| 0 <= id2 < token_views(tokens@).len() implies
                            token_views(tokens@)[id2] == (match last_value_for(done, id2) {
                            Some(v) => v,
                            None => Seq::<char>::empty(),
                        }) by {
                            lemma_entries_snoc(pre, e, id2, Seq::<char>::empty());
                            assert(token_views(tokens@)[id2] == tokens@[id2]@);
                            if id2 == e.0 {
                                assert(tokens@[id2]@ == tok@);
                            } else if id2 < old_tokens.len() {
                                assert(tokens@[id2]@ == old_tokens[id2]@);
                                assert(token_views(old_tokens)[id2] == old_tokens[id2]@);
                            } else {
                                assert(tokens@[id2]@ == Seq::<char>::empty());
                                assert(id2 > max_entry_id(pre));
                                lemma_no_value_above_max(pre, id2);
                            }
                        }
                        assert(tokens_match_entries(token_views(tokens@), done, 1));
                    }
                },
                None => {
                    assert(json_entry_spec(pview[i as int]) is None);
                    assert(json_entries_spec(pview, i as int) == json_entries_spec(pview, i + 1));
                },
            }
            i = i + 1;
        }
        proof {
            assert(json_entries_spec(pview, n as int) =~= Seq::<(int, Seq<char>)>::empty());
            assert(done + Seq::<(int, Seq<char>)>::empty() =~= done);
        }
        Ok(Vocabulary { tokens, blank_id: 8192, unk_id })
    }

    /// Loads a vocabulary, picking the format from the file name's suffix.
    pub fn load(filename: &str, content: &str) -> (r: Result<Vocabulary, AsrError>)
        ensures
            has_suffix(filename@, ".json"@) ==> match json_string_map_of(content@) {
                Some(pairs) => r matches Ok(v) && vocab_from_json_pairs(v, pairs),
                None => r matches Err(e) && e matches AsrError::Vocabulary(_),
            },
            !has_suffix(filename@, ".json"@) && has_suffix(filename@, ".txt"@) ==> (r matches Ok(v)
                && vocab_from_txt(v, content@)),
            !has_suffix(filename@, ".json"@) && !has_suffix(filename@, ".txt"@) ==> (r matches Err(
                e,
            ) && e matches AsrError::Vocabulary(_)),
    {
        let name = chars_of(filename);
        let json_suffix = chars_of(".json");
        let txt_suffix = chars_of(".txt");
        if ends_with_chars(&name, &json_suffix) {
            Vocabulary::load_json(content)
        } else if ends_with_chars(&name, &txt_suffix) {
            Ok(Vocabulary::load_txt(content))
        } else {
            Err(AsrError::Vocabulary("unknown vocabulary format".to_owned()))
        }
    }
}

/// Whether `s` ends with `suf`.
pub open spec fn has_suffix(s: Seq<char>, suf: Seq<char>) -> bool {
    s.len() >= suf.len() && s.subrange(s.len() - suf.len(), s.len() as int) == suf
}

/// Runtime suffix test.
fn ends_with_chars(v: &Vec<char>, suf: &Vec<char>) -> (r: bool)
    ensures
        r == has_suffix(v@, suf@),
{
    let n: usize = v.len();
    let m: usize = suf.len();
    if n < m {
        assert(!has_suffix(v@, suf@));
        return false;
    }
    let mut i: usize = 0;
    while i < m
        invariant
            i <= m <= n,
            n == v@.len(),
            m == suf@.len(),
            forall|j: int| 0 <= j < i ==> v@[n - m + j] == suf@[j],
        decreases m - i,
    {
        if v[n - m + i] != suf[i] {
            assert(v@.subrange(n - m, n as int)[i as int] != suf@[i as int]);
            return false;
        }
        i = i + 1;
    }
    assert(v@.subrange(n - m, n as int) =~= suf@);
    true
}

/// Parses one line of the text format.
fn parse_txt_entry(line: &Vec<char>) -> (r: Option<(usize, Vec<char>)>)
    ensures
        match r {
            Some((id, tok)) => txt_entry_spec(line@) == Some((id as int, tok@)) && id
                < VOCAB_ID_LIMIT,
            None => txt_entry_spec(line@) is None,
        },
{
    let t = trim_chars(line);
    let tn: usize = t.len();
    if tn == 0 {
        return None;
    }
    // Scan for the rightmost space.
    let mut k: usize = tn;
    let mut found: bool = false;
    while k > 0 && !found
        invariant
            k <= tn,
            tn == t@.len(),
            !found ==> rfind_space_spec(t@, tn - 1) == rfind_space_spec(t@, k - 1),
            found ==> k < tn && rfind_space_spec(t@, tn - 1) == k as int,
        decreases k + (if found {
            0int
        } else {
            1int
        }),
    {
        if t[k - 1] == ' ' {
            k = k - 1;
            found = true;
        } else {
            k = k - 1;
        }
    }
    if !found {
        proof {
            assert(rfind_space_spec(t@, -1) == -1);
        }
        return None;
    }
    match parse_id_range(&t, k + 1, tn) {
        Some(id) => {
            let mut tok: Vec<char> = Vec::new();
            let mut j: usize = 0;
            while j < k
                invariant
                    j <= k < tn,
                    tn == t@.len(),
                    tok@ == t@.subrange(0, j as int),
                decreases k - j,
            {
                tok.push(t[j]);
                assert(tok@ =~= t@.subrange(0, j + 1));
                j = j + 1;
            }
            Some((id, tok))
        },
        None => None,
    }
}

/// Places `tok` at slot `id`, extending the table with empty strings as
/// needed.
fn place_token(tokens: Vec<String>, id: usize, tok: String) -> (r: Vec<String>)
    requires
        id < VOCAB_ID_LIMIT,
        tokens@.len() <= VOCAB_ID_LIMIT,
    ensures
        r@.len() == if id + 1 > tokens@.len() {
            (id + 1) as int
        } else {
            tokens@.len() as int
        },
        r@.len() <= VOCAB_ID_LIMIT,
        forall|j: int|
            0 <= j < r@.len() ==> r@[j]@ == (if j == id {
                tok@
            } else if j < tokens@.len() {
                tokens@[j]@
            } else {
                Seq::<char>::empty()
            }),
{
    let ghost orig = tokens@;
    let mut out = tokens;
    while out.len() < id + 1
        invariant
            id < VOCAB_ID_LIMIT,
            orig.len() <= out@.len(),
            out@.len() <= if id + 1 > orig.len() {
                (id + 1) as int
            } else {
                orig.len() as int
            },
            forall|j: int| 0 <= j < orig.len() ==> out@[j] == orig[j],
            forall|j: int| orig.len() <= j < out@.len() ==> out@[j]@ == Seq::<char>::empty(),
        decreases id + 1 - out@.len(),
    {
        let empty_string = String::new();
        out.push(empty_string);
    }
    out.set(id, tok);
    out
}

} // verus!
