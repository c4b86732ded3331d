use vstd::prelude::*;

use fuzzy_matcher::skim::SkimMatcherV2;
use fuzzy_matcher::FuzzyMatcher;

use crate::text::chars_of;

pub mod laws;

verus! {

broadcast use vstd::std_specs::vec::group_vec_axioms;

/// How a pattern selects items.
#[derive(Debug, Clone, Copy, PartialEq, Eq, Structural)]
pub enum SelectorMode {
    /// The pattern must occur literally in the item.
    FixedString,
    /// The pattern's characters must occur in the item in order.
    OrderedSubsequence,
    /// The pattern is aligned with the item by the skim scoring algorithm.
    Fuzzy,
}

/// `c` is `lower` or, for an ASCII letter, its upper case.
pub open spec fn same_letter(c: char, lower: char) -> bool {
    c == lower || ('a' <= lower && lower <= 'z' && c as u32 + 32 == lower as u32)
}

/// `s` spells `word` (written in lower case), ignoring ASCII case.
pub open spec fn spells(s: Seq<char>, word: Seq<char>) -> bool {
    s.len() == word.len() && forall|i: int| 0 <= i < s.len() ==> same_letter(s[i], word[i])
}

/// The name of the exact-substring mode.
pub open spec fn fixed_name() -> Seq<char> {
    seq!['f', 'i', 'x', 'e', 'd']
}

/// The name of the fuzzy mode.
pub open spec fn fuzzy_name() -> Seq<char> {
    seq!['f', 'u', 'z', 'z', 'y']
}

fn spells_word(s: &Vec<char>, word: &[char]) -> (r: bool)
    ensures
        r == spells(s@, word@),
{
    if s.len() != word.len() {
        return false;
    }
    let mut i: usize = 0;
    while i < s.len()
        invariant
            s@.len() == word@.len(),
            i <= s@.len(),
            forall|j: int| 0 <= j < i ==> same_letter(s@[j], word@[j]),
        decreases s@.len() - i,
    {
        let c = s[i];
        let w = word[i];
        let same = c == w || ('a' <= w && w <= 'z' && c as u32 == w as u32 - 32);
        if !same {
            return false;
        }
        i += 1;
    }
    true
}

impl SelectorMode {
    /// The mode named `s`, ignoring ASCII case: `fixed` or `fuzzy`.
    pub fn parse(s: &str) -> (r: Result<SelectorMode, &'static str>)
        ensures
            spells(s@, fixed_name()) ==> r == Ok::<SelectorMode, &'static str>(SelectorMode::FixedString),
            spells(s@, fuzzy_name()) ==> r == Ok::<SelectorMode, &'static str>(SelectorMode::Fuzzy),
            !spells(s@, fixed_name()) && !spells(s@, fuzzy_name()) ==> r is Err,
    {
        let chars = chars_of(s);
        let fixed = ['f', 'i', 'x', 'e', 'd'];
        let fuzzy = ['f', 'u', 'z', 'z', 'y'];
        assert(fixed@ =~= fixed_name());
        assert(fuzzy@ =~= fuzzy_name());
        if spells_word(&chars, &fixed) {
            Ok(SelectorMode::FixedString)
        } else if spells_word(&chars, &fuzzy) {
            Ok(SelectorMode::Fuzzy)
        } else {
            Err("expected fixed or fuzzy")
        }
    }
}

impl std::str::FromStr for SelectorMode {
    type Err = &'static str;

    fn from_str(s: &str) -> Result<Self, Self::Err> {
        SelectorMode::parse(s)
    }
}

/// A highlight span over character offsets, start included, end excluded.
pub type Span = (usize, usize);

/// An item of the store, by position, with the spans to highlight in it.
#[derive(Debug, Clone)]
pub struct Match {
    pub index: usize,
    pub highlight: Vec<Span>,
}

impl View for Match {
    type V = (usize, Seq<Span>);

    open spec fn view(&self) -> (usize, Seq<Span>) {
        (self.index, self.highlight@)
    }
}

/// The spans are in increasing order, do not overlap, start at or after `from` and end
/// within `len` characters.
pub open spec fn spans_fit(spans: Seq<Span>, from: int, len: int) -> bool
    decreases spans.len(),
{
    if spans.len() == 0 {
        from <= len
    } else {
        &&& from <= spans[0].0 <= spans[0].1 <= len
        &&& spans_fit(spans.drop_first(), spans[0].1 as int, len)
    }
}

/// Each match names an item and highlights spans inside it.
pub open spec fn highlights_fit(items: Seq<Seq<char>>, ms: Seq<(usize, Seq<Span>)>) -> bool {
    forall|j: int| 0 <= j < ms.len() ==> {
        &&& (#[trigger] ms[j]).0 < items.len()
        &&& spans_fit(ms[j].1, 0, items[ms[j].0 as int].len() as int)
    }
}

/// The views of a sequence of matches.
pub open spec fn matches_view(ms: Seq<Match>) -> Seq<(usize, Seq<Span>)> {
    ms.map_values(|m: Match| m@)
}

/// `p` occurs in `item` starting at character `i`.
pub open spec fn occurs_at(item: Seq<char>, p: Seq<char>, i: int) -> bool {
    0 <= i && i + p.len() <= item.len() && item.subrange(i, i + p.len()) == p
}

/// `i` is the leftmost occurrence of `p` in `item`.
pub open spec fn is_first_occurrence(item: Seq<char>, p: Seq<char>, i: int) -> bool {
    occurs_at(item, p, i) && forall|j: int| 0 <= j < i ==> !occurs_at(item, p, j)
}

/// Exact-substring mode: one span over the leftmost occurrence of `p`, if any.
pub open spec fn fixed_highlight(item: Seq<char>, p: Seq<char>) -> Option<Seq<Span>> {
    if exists|i: int| occurs_at(item, p, i) {
        let i = choose|i: int| is_first_occurrence(item, p, i);
        Some(seq![(i as usize, (i + p.len()) as usize)])
    } else {
        None
    }
}

/// The first position at or after `from` that holds `c`, or `item.len()` when none does.
pub open spec fn find_from(item: Seq<char>, c: char, from: int) -> int
    decreases item.len() - from,
{
    if from < 0 || from >= item.len() {
        item.len() as int
    } else if item[from] == c {
        from
    } else {
        find_from(item, c, from + 1)
    }
}

/// The positions that a greedy left-to-right scan consumes to embed `p` in `item`,
/// each character of `p` taken at the first place after the previous one.
pub open spec fn greedy_embedding(item: Seq<char>, p: Seq<char>) -> Option<Seq<int>>
    decreases p.len(),
{
    if p.len() == 0 {
        Some(Seq::empty())
    } else {
        match greedy_embedding(item, p.drop_last()) {
            None => None,
            Some(pos) => {
                let from = if pos.len() == 0 { 0 } else { pos.last() + 1 };
                let i = find_from(item, p.last(), from);
                if i < item.len() {
                    Some(pos.push(i))
                } else {
                    None
                }
            },
        }
    }
}

/// Ordered-subsequence mode: one span from the first to one past the last character
/// consumed by the greedy scan; `(0, 0)` for the empty pattern.
pub open spec fn subsequence_highlight(item: Seq<char>, p: Seq<char>) -> Option<Seq<Span>> {
    if p.len() == 0 {
        Some(seq![(0usize, 0usize)])
    } else {
        match greedy_embedding(item, p) {
            None => None,
            Some(pos) => Some(seq![(pos[0] as usize, (pos.last() + 1) as usize)]),
        }
    }
}

/// The items that have a highlight, in item order, each with its position.
pub open spec fn select(hl: Seq<Option<Seq<Span>>>) -> Seq<(usize, Seq<Span>)>
    decreases hl.len(),
{
    if hl.len() == 0 {
        Seq::empty()
    } else {
        let prev = select(hl.drop_last());
        match hl.last() {
            Some(h) => prev.push(((hl.len() - 1) as usize, h)),
            None => prev,
        }
    }
}


/// The leftmost occurrence of `p` in `item`.
fn find_substring(item: &Vec<char>, p: &Vec<char>) -> (r: Option<usize>)
    ensures
        match r {
            Some(i) => is_first_occurrence(item@, p@, i as int),
            None => forall|i: int| !occurs_at(item@, p@, i),
        },
{
    let n = item.len();
    let m = p.len();
    if m > n {
        assert forall|i: int| !occurs_at(item@, p@, i) by {}
        return None;
    }
    let mut i: usize = 0;
    while i <= n - m
        invariant
            n == item@.len(),
            m == p@.len(),
            m <= n,
            i <= n - m + 1,
            forall|j: int| 0 <= j < i ==> !occurs_at(item@, p@, j),
        decreases n - i,
    {
        let mut k: usize = 0;
        while k < m && item[i + k] == p[k]
            invariant
                n == item@.len(),
                m == p@.len(),
                i + m <= n,
                k <= m,
                forall|t: int| 0 <= t < k ==> item@[i + t] == p@[t],
            decreases m - k,
        {
            k += 1;
        }
        if k == m {
            assert(item@.subrange(i as int, i + m) =~= p@);
            return Some(i);
        }
        assert(item@.subrange(i as int, i + m)[k as int] != p@[k as int]);
        i += 1;
    }
    assert forall|j: int| !occurs_at(item@, p@, j) by {
        if 0 <= j < i {
        }
    }
    None
}

/// Exact-substring highlight of one item.
fn fixed_match(item: &Vec<char>, p: &Vec<char>) -> (r: Option<Vec<Span>>)
    ensures
        match r {
            Some(h) => fixed_highlight(item@, p@) == Some(h@),
            None => fixed_highlight(item@, p@) is None,
        },
{
    match find_substring(item, p) {
        Some(i) => {
            let ghost c = choose|c: int| is_first_occurrence(item@, p@, c);
            assert(c == i as int) by {
                if c < i {
                } else if c > i {
                }
            }
            assert(i + p.len() <= item.len());
            let mut h: Vec<Span> = Vec::new();
            h.push((i, i + p.len()));
            assert(h@ =~= seq![(i, (i + p.len()) as usize)]);
            Some(h)
        },
        None => None,
    }
}

proof fn lemma_find_from_skips(item: Seq<char>, c: char, from: int, i: int)
    requires
        0 <= from <= i,
        i <= item.len(),
        forall|j: int| from <= j < i ==> item[j] != c,
    ensures
        find_from(item, c, from) == find_from(item, c, i),
    decreases i - from,
{
    if from < i {
        lemma_find_from_skips(item, c, from + 1, i);
    }
}

proof fn lemma_embedding_fails_longer(item: Seq<char>, p: Seq<char>, k: int)
    requires
        0 <= k <= p.len(),
        greedy_embedding(item, p.take(k)) is None,
    ensures
        greedy_embedding(item, p) is None,
    decreases p.len() - k,
{
    if k < p.len() {
        assert(p.take(k + 1).drop_last() =~= p.take(k));
        lemma_embedding_fails_longer(item, p, k + 1);
    } else {
        assert(p.take(k) =~= p);
    }
}

/// Ordered-subsequence highlight of one item, by one greedy left-to-right scan.
fn subsequence_match(item: &Vec<char>, p: &Vec<char>) -> (r: Option<Vec<Span>>)
    ensures
        match r {
            Some(h) => subsequence_highlight(item@, p@) == Some(h@),
            None => subsequence_highlight(item@, p@) is None,
        },
{
    let n = item.len();
    let m = p.len();
    if m == 0 {
        let mut h: Vec<Span> = Vec::new();
        h.push((0, 0));
        assert(h@ =~= seq![(0usize, 0usize)]);
        return Some(h);
    }
    let mut i: usize = 0;
    let mut k: usize = 0;
    let mut first: usize = 0;
    let ghost mut pos: Seq<int> = Seq::empty();
    assert(p@.take(0) =~= Seq::<char>::empty());
    while i < n && k < m
        invariant
            n == item@.len(),
            m == p@.len(),
            0 < m,
            k <= m,
            i <= n,
            greedy_embedding(item@, p@.take(k as int)) == Some(pos),
            pos.len() == k,
            k > 0 ==> pos[0] == first && 0 <= pos.last() < i,
            k == m ==> pos.last() == i - 1,
            k < m ==> forall|j: int| (if k == 0 { 0 } else { pos.last() + 1 }) <= j < i
                ==> item@[j] != p@[k as int],
        decreases n - i,
    {
        if item[i] == p[k] {
            proof {
                let from = if k == 0 { 0 } else { pos.last() + 1 };
                lemma_find_from_skips(item@, p@[k as int], from, i as int);
                assert(p@.take(k + 1).drop_last() =~= p@.take(k as int));
                assert(p@.take(k + 1).last() == p@[k as int]);
                pos = pos.push(i as int);
            }
            if k == 0 {
                first = i;
            }
            k += 1;
        }
        i += 1;
    }
    if k == m {
        assert(p@.take(m as int) =~= p@);
        let mut h: Vec<Span> = Vec::new();
        h.push((first, i));
        assert(h@ =~= seq![(first, i)]);
        Some(h)
    } else {
        proof {
            let from = if k == 0 { 0 } else { pos.last() + 1 };
            lemma_find_from_skips(item@, p@[k as int], from, n as int);
            assert(p@.take(k + 1).drop_last() =~= p@.take(k as int));
            assert(p@.take(k + 1).last() == p@[k as int]);
            lemma_embedding_fails_longer(item@, p@, k + 1);
        }
        None
    }
}


/// The score and the matched character positions that the skim algorithm (default
/// configuration, ignoring case) gives for `pattern` against `choice`, if it aligns.
pub uninterp spec fn skim_alignment(choice: Seq<char>, pattern: Seq<char>) -> Option<(i64, Seq<usize>)>;

/// The view of a scorer result.
pub open spec fn alignment_view(r: Option<(i64, Vec<usize>)>) -> Option<(i64, Seq<usize>)> {
    match r {
        Some((score, idx)) => Some((score, idx@)),
        None => None,
    }
}

/// Positions that are strictly increasing and inside an item of `len` characters.
pub open spec fn positions_within(idx: Seq<usize>, len: nat) -> bool {
    &&& forall|k: int| 0 <= k < idx.len() ==> idx[k] < len
    &&& forall|k: int, l: int| 0 <= k < l < idx.len() ==> idx[k] < idx[l]
}

/// Relies on fuzzy_matcher's `SkimMatcherV2::default().ignore_case().fuzzy_indices`:
/// the score and the matched character indices, which depend on the two strings alone.
/// Its source returns `Some((0, []))` for an empty pattern, and otherwise builds the
/// indices by a traceback that steps one column left at each step from a column no
/// greater than the number of characters of `choice`, then reverses them.
#[verifier::external_body]
fn skim_fuzzy_indices(choice: &str, pattern: &str) -> (r: Option<(i64, Vec<usize>)>)
    ensures
        alignment_view(r) == skim_alignment(choice@, pattern@),
        pattern@.len() == 0 ==> alignment_view(r) == Some((0i64, Seq::<usize>::empty())),
        match r {
            Some((_, idx)) => positions_within(idx@, choice@.len()),
            None => true,
        },
{
    SkimMatcherV2::default().ignore_case().fuzzy_indices(choice, pattern)
}

/// One one-character span per matched position.
pub open spec fn unit_spans(idx: Seq<usize>) -> Seq<Span> {
    idx.map_values(|x: usize| (x, (x + 1) as usize))
}

/// The score of item `k` in the scorer results `rs` (which must align it).
pub open spec fn score_of(rs: Seq<Option<(i64, Seq<usize>)>>, k: int) -> i64 {
    rs[k]->Some_0.0
}

/// Item `a` comes before item `b`: a better score, or an equal score and an earlier item.
pub open spec fn ranks_before(rs: Seq<Option<(i64, Seq<usize>)>>, a: int, b: int) -> bool {
    score_of(rs, a) > score_of(rs, b) || (score_of(rs, a) == score_of(rs, b) && a < b)
}

/// `ms` holds exactly the items that the scorer aligned, each once, highlighted at the
/// positions it reported, from best to worst score, equal scores in item order.
pub open spec fn is_ranking(rs: Seq<Option<(i64, Seq<usize>)>>, ms: Seq<(usize, Seq<Span>)>) -> bool {
    &&& forall|i: int|
        0 <= i < ms.len() ==> {
            &&& ms[i].0 < rs.len()
            &&& rs[ms[i].0 as int] is Some
            &&& ms[i].1 == unit_spans(rs[ms[i].0 as int]->Some_0.1)
        }
    &&& forall|k: int| 0 <= k < rs.len() && rs[k] is Some ==> exists|i: int| 0 <= i < ms.len() && ms[i].0 == k
    &&& forall|i: int, j: int| 0 <= i < j < ms.len() ==> ranks_before(rs, ms[i].0 as int, ms[j].0 as int)
}

/// One one-character span per position.
fn spans_at(idx: &Vec<usize>) -> (r: Vec<Span>)
    requires
        forall|t: int| 0 <= t < idx@.len() ==> idx@[t] < usize::MAX,
    ensures
        r@ == unit_spans(idx@),
{
    let mut spans: Vec<Span> = Vec::new();
    for t in 0..idx.len()
        invariant
            forall|t2: int| 0 <= t2 < idx@.len() ==> idx@[t2] < usize::MAX,
            spans@ =~= unit_spans(idx@.take(t as int)),
    {
        let x = idx[t];
        spans.push((x, x + 1));
        assert(idx@.take(t + 1) =~= idx@.take(t as int).push(x));
    }
    assert(idx@.take(idx@.len() as int) =~= idx@);
    spans
}

/// The first place in `keys` that holds a key below `key`.
fn insertion_point(keys: &Vec<i64>, key: i64) -> (r: usize)
    ensures
        r <= keys@.len(),
        forall|i: int| 0 <= i < r ==> keys@[i] >= key,
        r < keys@.len() ==> keys@[r as int] < key,
{
    let mut pos: usize = 0;
    while pos < keys.len() && keys[pos] >= key
        invariant
            pos <= keys@.len(),
            forall|i: int| 0 <= i < pos ==> keys@[i] >= key,
        decreases keys@.len() - pos,
    {
        pos += 1;
    }
    pos
}

/// Orders the items that a scorer aligned, given its result for each item in turn:
/// best score first, equal scores in item order.
pub fn rank_by_score(results: &Vec<Option<(i64, Vec<usize>)>>) -> (r: Vec<Match>)
    requires
        forall|k: int| 0 <= k < results@.len() ==> match #[trigger] results@[k] {
            Some((_, idx)) => forall|t: int| 0 <= t < idx@.len() ==> idx@[t] < usize::MAX,
            None => true,
        },
    ensures
        is_ranking(results@.map_values(|x| alignment_view(x)), matches_view(r@)),
{
    let ghost rs = results@.map_values(|x| alignment_view(x));
    let mut out: Vec<Match> = Vec::new();
    let mut keys: Vec<i64> = Vec::new();
    let n = results.len();
    let mut k: usize = 0;
    while k < n
        invariant
            k <= n,
            n == results@.len(),
            rs == results@.map_values(|x| alignment_view(x)),
            forall|q: int| 0 <= q < results@.len() ==> match #[trigger] results@[q] {
                Some((_, idx)) => forall|t: int| 0 <= t < idx@.len() ==> idx@[t] < usize::MAX,
                None => true,
            },
            keys@.len() == out@.len(),
            forall|i: int| 0 <= i < out@.len() ==> {
                &&& (#[trigger] out@[i]).index < k
                &&& rs[out@[i].index as int] is Some
                &&& keys@[i] == score_of(rs, out@[i].index as int)
                &&& out@[i].highlight@ == unit_spans(rs[out@[i].index as int]->Some_0.1)
            },
            forall|q: int| 0 <= q < k && rs[q] is Some ==> exists|i: int| 0 <= i < out@.len() && out@[i].index == q,
            forall|i: int, j: int| 0 <= i < j < out@.len() ==> ranks_before(rs, out@[i].index as int, out@[j].index as int),
        decreases n - k,
    {
        match &results[k] {
            Some((score, idx)) => {
                let spans = spans_at(idx);
                let pos = insertion_point(&keys, *score);
                let ghost old_out = out@;
                let ghost old_keys = keys@;
                assert(rs[k as int] == Some((*score, idx@)));
                keys.insert(pos, *score);
                out.insert(pos, Match { index: k, highlight: spans });
                proof {
                    assert forall|i: int| 0 <= i < out@.len() implies {
                        &&& (#[trigger] out@[i]).index < k + 1
                        &&& rs[out@[i].index as int] is Some
                        &&& keys@[i] == score_of(rs, out@[i].index as int)
                        &&& out@[i].highlight@ == unit_spans(rs[out@[i].index as int]->Some_0.1)
                    } by {
                        if i < pos {
                            assert(out@[i] == old_out[i]);
                            assert(keys@[i] == old_keys[i]);
                        } else if i == pos {
                            assert(keys@[i] == *score);
                        } else {
                            assert(out@[i] == old_out[i - 1]);
                            assert(keys@[i] == old_keys[i - 1]);
                        }
                    }
                    assert forall|q: int| 0 <= q < k + 1 && rs[q] is Some implies exists|i: int| 0 <= i < out@.len() && out@[i].index == q by {
                        if q == k {
                            assert(out@[pos as int].index == q);
                        } else {
                            let i0 = choose|i: int| 0 <= i < old_out.len() && old_out[i].index == q;
                            if i0 < pos {
                                assert(out@[i0] == old_out[i0]);
                                assert(out@[i0].index == q);
                            } else {
                                assert(out@[i0 + 1] == old_out[i0]);
                                assert(out@[i0 + 1].index == q);
                            }
                        }
                    }
                    assert forall|i: int, j: int| 0 <= i < j < out@.len() implies ranks_before(rs, out@[i].index as int, out@[j].index as int) by {
                        if j < pos {
                            assert(out@[i] == old_out[i]);
                            assert(out@[j] == old_out[j]);
                        } else if j == pos {
                            assert(out@[i] == old_out[i]);
                            assert(old_keys[i] >= *score);
                        } else if i < pos {
                            assert(out@[i] == old_out[i]);
                            assert(out@[j] == old_out[j - 1]);
                        } else if i == pos {
                            assert(out@[j] == old_out[j - 1]);
                            assert(old_keys[j - 1] < *score || j - 1 >= pos);
                            if j - 1 > pos {
                                assert(ranks_before(rs, old_out[pos as int].index as int, old_out[j - 1].index as int));
                            }
                        } else {
                            assert(out@[i] == old_out[i - 1]);
                            assert(out@[j] == old_out[j - 1]);
                        }
                    }
                }
            },
            None => {
                assert(rs[k as int] is None);
            },
        }
        k += 1;
    }
    proof {
        assert forall|i: int| 0 <= i < out@.len() implies {
            &&& matches_view(out@)[i].0 < rs.len()
            &&& rs[matches_view(out@)[i].0 as int] is Some
            &&& matches_view(out@)[i].1 == unit_spans(rs[matches_view(out@)[i].0 as int]->Some_0.1)
        } by {
            assert(matches_view(out@)[i] == out@[i]@);
        }
        assert forall|q: int| 0 <= q < rs.len() && rs[q] is Some implies exists|i: int| 0 <= i < matches_view(out@).len() && matches_view(out@)[i].0 == q by {
            let i0 = choose|i: int| 0 <= i < out@.len() && out@[i].index == q;
            assert(matches_view(out@)[i0].0 == q);
        }
    }
    out
}


/// The highlight of one item in the two modes that need no scorer.
pub open spec fn plain_highlight(mode: SelectorMode, item: Seq<char>, p: Seq<char>) -> Option<Seq<Span>> {
    if mode == SelectorMode::FixedString {
        fixed_highlight(item, p)
    } else {
        subsequence_highlight(item, p)
    }
}

/// What the scorer gives for each item.
pub open spec fn alignments(items: Seq<Seq<char>>, p: Seq<char>) -> Seq<Option<(i64, Seq<usize>)>> {
    Seq::new(items.len(), |i: int| skim_alignment(items[i], p))
}

/// `ms` is the match set of `items` for the pattern `p` in `mode`.
pub open spec fn is_match_set(
    mode: SelectorMode,
    items: Seq<Seq<char>>,
    p: Seq<char>,
    ms: Seq<(usize, Seq<Span>)>,
) -> bool {
    match mode {
        SelectorMode::Fuzzy => is_ranking(alignments(items, p), ms),
        _ => ms == select(Seq::new(items.len(), |i: int| plain_highlight(mode, items[i], p))),
    }
}

/// The matches, in item order, of the modes that need no scorer.
fn plain_matches(mode: SelectorMode, items: &Vec<Vec<char>>, p: &Vec<char>) -> (r: Vec<Match>)
    requires
        mode != SelectorMode::Fuzzy,
    ensures
        matches_view(r@) == select(
            Seq::new(items@.len(), |i: int| plain_highlight(mode, items@[i]@, p@)),
        ),
{
    let ghost hl = Seq::new(items@.len(), |i: int| plain_highlight(mode, items@[i]@, p@));
    let mut out: Vec<Match> = Vec::new();
    let n = items.len();
    let mut k: usize = 0;
    while k < n
        invariant
            k <= n,
            n == items@.len(),
            hl == Seq::new(items@.len(), |i: int| plain_highlight(mode, items@[i]@, p@)),
            matches_view(out@) == select(hl.take(k as int)),
        decreases n - k,
    {
        let found = match mode {
            SelectorMode::FixedString => fixed_match(&items[k], p),
            _ => subsequence_match(&items[k], p),
        };
        let ghost before = out@;
        assert(hl.take(k + 1).drop_last() =~= hl.take(k as int));
        match found {
            Some(h) => {
                out.push(Match { index: k, highlight: h });
                assert(matches_view(out@) =~= matches_view(before).push(out@.last()@)) by {
                    assert(out@ =~= before.push(out@.last()));
                }
            },
            None => {},
        }
        k += 1;
    }
    assert(hl.take(n as int) =~= hl);
    out
}

/// The views of the items' texts.
pub open spec fn texts_view(items: Seq<String>) -> Seq<Seq<char>> {
    items.map_values(|s: String| s@)
}

/// Recomputes the matches of a fixed list of items each time the pattern changes.
pub struct Selector {
    mode: SelectorMode,
    /// All of the items
    items: Vec<String>,
    /// The characters of each item
    chars: Vec<Vec<char>>,
    /// The current matches, each an index into items and its highlight
    matches: Vec<Match>,
    pattern: Ghost<Seq<char>>,
}

impl Selector {
    /// The matching mode, fixed at construction.
    pub closed spec fn spec_mode(&self) -> SelectorMode {
        self.mode
    }

    /// The texts of the items.
    pub closed spec fn spec_items(&self) -> Seq<Seq<char>> {
        texts_view(self.items@)
    }

    /// The last pattern given.
    pub closed spec fn spec_pattern(&self) -> Seq<char> {
        self.pattern@
    }

    /// The current matches.
    pub closed spec fn spec_matches(&self) -> Seq<(usize, Seq<Span>)> {
        matches_view(self.matches@)
    }

    /// Each item's characters are kept beside it.
    pub closed spec fn store_wf(&self) -> bool {
        &&& self.chars@.len() == self.items@.len()
        &&& forall|i: int| 0 <= i < self.items@.len() ==> (#[trigger] self.chars@[i])@ == self.items@[i]@
    }

    /// The matches are those of the last pattern.
    pub open spec fn wf(&self) -> bool {
        &&& self.store_wf()
        &&& self.matches_current()
    }

    /// The matches are those of the last pattern, and their spans lie in their items.
    pub open spec fn matches_current(&self) -> bool {
        &&& is_match_set(self.spec_mode(), self.spec_items(), self.spec_pattern(), self.spec_matches())
        &&& highlights_fit(self.spec_items(), self.spec_matches())
    }

    /// A selector over `items`, matching the empty pattern.
    pub fn new(mode: SelectorMode, items: Vec<String>) -> (r: Self)
        ensures
            r.wf(),
            r.spec_mode() == mode,
            r.spec_items() == texts_view(items@),
            r.spec_pattern() == Seq::<char>::empty(),
    {
        let mut chars: Vec<Vec<char>> = Vec::new();
        let n = items.len();
        let mut k: usize = 0;
        while k < n
            invariant
                k <= n,
                n == items@.len(),
                chars@.len() == k,
                forall|i: int| 0 <= i < k ==> (#[trigger] chars@[i])@ == items@[i]@,
            decreases n - k,
        {
            chars.push(chars_of(items[k].as_str()));
            k += 1;
        }
        let mut this = Self { mode, items, chars, matches: Vec::new(), pattern: Ghost(Seq::empty()) };
        this.set_pattern("");
        proof {
            reveal_strlit("");
        }
        this
    }

    /// The current matches.
    pub fn matches(&self) -> (r: &[Match])
        ensures
            matches_view(r@) == self.spec_matches(),
    {
        self.matches.as_slice()
    }

    /// There are fewer matches than `usize` can count.
    pub proof fn lemma_matches_len(&self)
        ensures
            self.spec_matches().len() <= usize::MAX,
    {
        assert(self.matches@.len() == self.matches.len());
    }

    /// The items, in the order they were given.
    pub fn items(&self) -> (r: &[String])
        ensures
            texts_view(r@) == self.spec_items(),
    {
        self.items.as_slice()
    }

    pub fn mode(&self) -> (r: SelectorMode)
        ensures
            r == self.spec_mode(),
    {
        self.mode
    }

    /// Replaces the matches by those of `pattern`.
    pub fn set_pattern(&mut self, pattern: &str)
        requires
            old(self).store_wf(),
        ensures
            final(self).wf(),
            final(self).spec_mode() == old(self).spec_mode(),
            final(self).spec_items() == old(self).spec_items(),
            final(self).spec_pattern() == pattern@,
    {
        let p = chars_of(pattern);
        match self.mode {
            SelectorMode::Fuzzy => {
                let mut results: Vec<Option<(i64, Vec<usize>)>> = Vec::new();
                let n = self.items.len();
                let mut k: usize = 0;
                while k < n
                    invariant
                        self.store_wf(),
                        k <= n,
                        n == self.items@.len(),
                        results@.len() == k,
                        forall|i: int| 0 <= i < k ==> alignment_view(#[trigger] results@[i])
                            == skim_alignment(self.items@[i]@, pattern@),
                        forall|q: int| 0 <= q < k ==> match #[trigger] results@[q] {
                            Some((_, idx)) => {
                                &&& forall|t: int| 0 <= t < idx@.len() ==> idx@[t] < usize::MAX
                                &&& positions_within(idx@, self.items@[q]@.len())
                            },
                            None => true,
                        },
                    decreases n - k,
                {
                    let r = skim_fuzzy_indices(self.items[k].as_str(), pattern);
                    assert(self.chars@[k as int]@.len() == self.chars@[k as int].len());
                    results.push(r);
                    k += 1;
                }
                self.matches = rank_by_score(&results);
                let ghost rs = results@.map_values(|x| alignment_view(x));
                assert(rs =~= alignments(self.spec_items(), pattern@));
                proof {
                    let ms = self.spec_matches();
                    assert forall|j: int| 0 <= j < ms.len() implies {
                        &&& (#[trigger] ms[j]).0 < self.spec_items().len()
                        &&& spans_fit(ms[j].1, 0, self.spec_items()[ms[j].0 as int].len() as int)
                    } by {
                        let q = ms[j].0 as int;
                        assert(results@[q] matches Some(_));
                        let idx = rs[q]->Some_0.1;
                        assert(positions_within(idx, self.items@[q]@.len()));
                        assert(self.chars@[q]@.len() == self.chars@[q].len());
                        lemma_unit_spans_fit(idx, 0, self.items@[q]@.len() as int);
                    }
                }
            },
            _ => {
                self.matches = plain_matches(self.mode, &self.chars, &p);
                let ghost hl = Seq::new(self.items@.len(), |i: int| plain_highlight(self.mode, self.spec_items()[i], p@));
                assert(Seq::new(self.chars@.len(), |i: int| plain_highlight(self.mode, self.chars@[i]@, p@)) =~= hl);
                proof {
                    assert(self.items@.len() == self.items.len());
                    lemma_select(hl);
                    let ms = self.spec_matches();
                    assert forall|j: int| 0 <= j < ms.len() implies {
                        &&& (#[trigger] ms[j]).0 < self.spec_items().len()
                        &&& spans_fit(ms[j].1, 0, self.spec_items()[ms[j].0 as int].len() as int)
                    } by {
                        let q = ms[j].0 as int;
                        assert(self.chars@[q]@.len() == self.chars@[q].len());
                        lemma_plain_highlight_fits(self.mode, self.spec_items()[q], p@);
                    }
                }
            },
        }
        self.pattern = Ghost(pattern@);
    }
}


/// Where the scan finds `c`, it holds `c`, at or after `from`.
pub(crate) proof fn lemma_find_from(item: Seq<char>, c: char, from: int)
    requires
        0 <= from,
    ensures
        from <= find_from(item, c, from) <= item.len() || from > item.len(),
        find_from(item, c, from) < item.len() ==> item[find_from(item, c, from)] == c,
    decreases item.len() - from,
{
    if from < item.len() && item[from] != c {
        lemma_find_from(item, c, from + 1);
    }
}

/// The greedy embedding takes one position per pattern character, in increasing order,
/// each holding that character.
pub proof fn lemma_greedy_embedding_positions(item: Seq<char>, p: Seq<char>)
    ensures
        match greedy_embedding(item, p) {
            Some(pos) => {
                &&& pos.len() == p.len()
                &&& forall|k: int| 0 <= k < pos.len() ==> 0 <= #[trigger] pos[k] < item.len() && item[pos[k]] == p[k]
                &&& forall|k: int, l: int| 0 <= k < l < pos.len() ==> pos[k] < pos[l]
            },
            None => true,
        },
    decreases p.len(),
{
    if p.len() > 0 {
        lemma_greedy_embedding_positions(item, p.drop_last());
        match greedy_embedding(item, p.drop_last()) {
            Some(pos) => {
                let from = if pos.len() == 0 { 0 } else { pos.last() + 1 };
                lemma_find_from(item, p.last(), from);
            },
            None => {},
        }
    }
}

/// The highlight of a matched item, in the two modes without a scorer, fits in it.
proof fn lemma_plain_highlight_fits(mode: SelectorMode, item: Seq<char>, p: Seq<char>)
    requires
        item.len() <= usize::MAX,
    ensures
        match plain_highlight(mode, item, p) {
            Some(h) => spans_fit(h, 0, item.len() as int),
            None => true,
        },
{
    let h = plain_highlight(mode, item, p);
    if h is Some {
        let sp = h->Some_0;
        assert(sp.len() == 1);
        assert(sp.drop_first() =~= Seq::<Span>::empty());
        if mode == SelectorMode::FixedString {
            let i0 = choose|i0: int| occurs_at(item, p, i0);
            lemma_first_occurrence_exists(item, p, i0);
            let i = choose|i: int| is_first_occurrence(item, p, i);
            assert(sp[0] == (i as usize, (i + p.len()) as usize));
        } else if p.len() > 0 {
            lemma_greedy_embedding_positions(item, p);
            let pos = greedy_embedding(item, p)->Some_0;
            assert(sp[0] == (pos[0] as usize, (pos.last() + 1) as usize));
            assert(pos[0] <= pos.last()) by {
                if pos.len() > 1 {
                    assert(pos[0] < pos[pos.len() - 1]);
                }
            }
        }
        assert(0 <= sp[0].0 <= sp[0].1 <= item.len());
        assert(spans_fit(sp.drop_first(), sp[0].1 as int, item.len() as int));
    }
}

/// Unit spans over increasing positions inside an item fit in it.
proof fn lemma_unit_spans_fit(idx: Seq<usize>, from: int, len: int)
    requires
        len <= usize::MAX,
        positions_within(idx, len as nat),
        0 <= from <= len,
        idx.len() > 0 ==> from <= idx[0],
    ensures
        spans_fit(unit_spans(idx), from, len),
    decreases idx.len(),
{
    if idx.len() > 0 {
        let rest = idx.drop_first();
        assert(unit_spans(idx).drop_first() =~= unit_spans(rest));
        assert(positions_within(rest, len as nat));
        lemma_unit_spans_fit(rest, idx[0] + 1, len);
    }
}

/// What `select` keeps: each highlighted item once, with its highlight, in item order.
pub(crate) proof fn lemma_select(hl: Seq<Option<Seq<Span>>>)
    requires
        hl.len() <= usize::MAX,
    ensures
        forall|j: int| 0 <= j < select(hl).len() ==> {
            &&& (#[trigger] select(hl)[j]).0 < hl.len()
            &&& hl[select(hl)[j].0 as int] == Some(select(hl)[j].1)
        },
        forall|k: int| 0 <= k < hl.len() && (#[trigger] hl[k]) is Some
            ==> exists|j: int| 0 <= j < select(hl).len() && select(hl)[j].0 == k,
        forall|j1: int, j2: int| 0 <= j1 < j2 < select(hl).len()
            ==> select(hl)[j1].0 < select(hl)[j2].0,
    decreases hl.len(),
{
    if hl.len() > 0 {
        let prev = hl.drop_last();
        lemma_select(prev);
        let sel = select(hl);
        assert forall|k: int| 0 <= k < hl.len() && (#[trigger] hl[k]) is Some
            implies exists|j: int| 0 <= j < sel.len() && sel[j].0 == k by {
            if k < hl.len() - 1 {
                assert(prev[k] == hl[k]);
                let j = choose|j: int| 0 <= j < select(prev).len() && select(prev)[j].0 == k;
                assert(sel[j] == select(prev)[j]);
            } else {
                assert(sel[sel.len() - 1].0 == k);
            }
        }
    }
}

/// An occurrence of `p` in `item` means there is a leftmost one.
pub(crate) proof fn lemma_first_occurrence_exists(item: Seq<char>, p: Seq<char>, i: int)
    requires
        occurs_at(item, p, i),
    ensures
        exists|f: int| is_first_occurrence(item, p, f),
    decreases i,
{
    if !is_first_occurrence(item, p, i) {
        let j = choose|j: int| 0 <= j < i && occurs_at(item, p, j);
        lemma_first_occurrence_exists(item, p, j);
    }
}

} // verus!
