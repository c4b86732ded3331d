//! What the match engine guarantees, stated over the spec functions that its
//! contracts use.
use vstd::prelude::*;

use super::{
    find_from, fixed_highlight, greedy_embedding, is_first_occurrence, is_match_set, is_ranking, lemma_find_from,
    lemma_first_occurrence_exists, lemma_greedy_embedding_positions, lemma_select, occurs_at,
    plain_highlight, ranks_before, select, subsequence_highlight, SelectorMode, Span,
};

verus! {

/// In exact-substring mode an item is matched if and only if the pattern occurs in it
/// literally, and its highlight is the single span of the leftmost occurrence; items
/// keep their order.
pub proof fn lemma_fixed_string_matches(items: Seq<Seq<char>>, p: Seq<char>, ms: Seq<(usize, Seq<Span>)>)
    requires
        items.len() <= usize::MAX,
        is_match_set(SelectorMode::FixedString, items, p, ms),
    ensures
        forall|k: int| 0 <= k < items.len() ==> (
            (exists|j: int| 0 <= j < ms.len() && ms[j].0 == k)
                <==> (exists|i: int| occurs_at(#[trigger] items[k], p, i))),
        forall|j: int| 0 <= j < ms.len() ==> (#[trigger] ms[j]).0 < items.len()
            && exists|i: int| is_first_occurrence(items[ms[j].0 as int], p, i)
                && ms[j].1 == seq![(i as usize, (i + p.len()) as usize)],
        forall|j1: int, j2: int| 0 <= j1 < j2 < ms.len() ==> ms[j1].0 < ms[j2].0,
{
    let hl = Seq::new(items.len(), |i: int| plain_highlight(SelectorMode::FixedString, items[i], p));
    lemma_select(hl);
    assert forall|k: int| 0 <= k < items.len() implies (
        (exists|j: int| 0 <= j < ms.len() && ms[j].0 == k)
            <==> (exists|i: int| occurs_at(#[trigger] items[k], p, i))) by {
        assert(hl[k] == fixed_highlight(items[k], p));
        if exists|j: int| 0 <= j < ms.len() && ms[j].0 == k {
            let j = choose|j: int| 0 <= j < ms.len() && ms[j].0 == k;
            assert(hl[ms[j].0 as int] is Some);
        }
    }
    assert forall|j: int| 0 <= j < ms.len() implies (#[trigger] ms[j]).0 < items.len()
        && exists|i: int| is_first_occurrence(items[ms[j].0 as int], p, i)
            && ms[j].1 == seq![(i as usize, (i + p.len()) as usize)] by {
        let k = ms[j].0 as int;
        assert(hl[k] == fixed_highlight(items[k], p));
        let i = choose|i: int| is_first_occurrence(items[k], p, i);
        assert(exists|i0: int| occurs_at(items[k], p, i0));
        let i0 = choose|i0: int| occurs_at(items[k], p, i0);
        lemma_first_occurrence_exists(items[k], p, i0);
    }
}

/// With the empty pattern, in exact-substring and ordered-subsequence modes, every item
/// matches, in item order, with the single span `(0, 0)`.
pub proof fn lemma_empty_pattern_matches_all(mode: SelectorMode, items: Seq<Seq<char>>, ms: Seq<(usize, Seq<Span>)>)
    requires
        mode != SelectorMode::Fuzzy,
        items.len() <= usize::MAX,
        is_match_set(mode, items, Seq::empty(), ms),
    ensures
        ms == Seq::new(items.len(), |i: int| (i as usize, seq![(0usize, 0usize)])),
{
    let p = Seq::<char>::empty();
    let hl = Seq::new(items.len(), |i: int| plain_highlight(mode, items[i], p));
    assert forall|i: int| 0 <= i < items.len() implies hl[i] == Some(seq![(0usize, 0usize)]) by {
        if mode == SelectorMode::FixedString {
            assert(items[i].subrange(0, 0) =~= p);
            assert(occurs_at(items[i], p, 0));
            let f = choose|f: int| is_first_occurrence(items[i], p, f);
            lemma_first_occurrence_exists(items[i], p, 0);
            assert(f == 0);
        }
    }
    lemma_select_all(hl, seq![(0usize, 0usize)]);
}

/// When every item has the same highlight `h`, `select` keeps them all.
proof fn lemma_select_all(hl: Seq<Option<Seq<Span>>>, h: Seq<Span>)
    requires
        hl.len() <= usize::MAX,
        forall|i: int| 0 <= i < hl.len() ==> hl[i] == Some(h),
    ensures
        select(hl) == Seq::new(hl.len(), |i: int| (i as usize, h)),
    decreases hl.len(),
{
    if hl.len() > 0 {
        lemma_select_all(hl.drop_last(), h);
        assert(select(hl) =~= Seq::new(hl.len(), |i: int| (i as usize, h)));
    } else {
        assert(select(hl) =~= Seq::new(hl.len(), |i: int| (i as usize, h)));
    }
}


/// `pos` places each character of `p` in `item`, at increasing positions.
pub open spec fn is_embedding(item: Seq<char>, p: Seq<char>, pos: Seq<int>) -> bool {
    &&& pos.len() == p.len()
    &&& forall|k: int| 0 <= k < pos.len() ==> 0 <= #[trigger] pos[k] < item.len() && item[pos[k]] == p[k]
    &&& forall|k: int, l: int| 0 <= k < l < pos.len() ==> pos[k] < pos[l]
}

/// The characters of `p` occur in `item` in order, not necessarily next to each other.
pub open spec fn is_subsequence(p: Seq<char>, item: Seq<char>) -> bool {
    exists|pos: Seq<int>| is_embedding(item, p, pos)
}

/// The scan finds `c` no later than any place at or after `from` that holds it.
proof fn lemma_find_from_first(item: Seq<char>, c: char, from: int, t: int)
    requires
        0 <= from <= t < item.len(),
        item[t] == c,
    ensures
        find_from(item, c, from) <= t,
    decreases t - from,
{
    if item[from] != c {
        lemma_find_from_first(item, c, from + 1, t);
    }
}

/// Where some embedding exists, the greedy scan succeeds, and consumes its last
/// character no later than that embedding does.
proof fn lemma_greedy_complete(item: Seq<char>, p: Seq<char>, e: Seq<int>)
    requires
        is_embedding(item, p, e),
    ensures
        greedy_embedding(item, p) is Some,
        p.len() > 0 ==> greedy_embedding(item, p)->Some_0.last() <= e.last(),
    decreases p.len(),
{
    if p.len() > 0 {
        let e1 = e.drop_last();
        assert(is_embedding(item, p.drop_last(), e1));
        lemma_greedy_complete(item, p.drop_last(), e1);
        lemma_greedy_embedding_positions(item, p.drop_last());
        let g = greedy_embedding(item, p.drop_last())->Some_0;
        let from = if g.len() == 0 { 0 } else { g.last() + 1 };
        if g.len() > 0 {
            assert(e1.last() < e.last());
        }
        assert(0 <= e.last() < item.len() && item[e.last()] == p.last());
        lemma_find_from_first(item, p.last(), from, e.last());
        lemma_find_from(item, p.last(), from);
    }
}

/// In ordered-subsequence mode an item is matched if and only if the pattern is a
/// subsequence of it; its highlight is the one span from the first to one past the
/// last character that the greedy scan consumed.
pub proof fn lemma_subsequence_matches(items: Seq<Seq<char>>, p: Seq<char>, ms: Seq<(usize, Seq<Span>)>)
    requires
        items.len() <= usize::MAX,
        is_match_set(SelectorMode::OrderedSubsequence, items, p, ms),
    ensures
        forall|k: int| 0 <= k < items.len() ==> (
            (exists|j: int| 0 <= j < ms.len() && ms[j].0 == k)
                <==> is_subsequence(p, #[trigger] items[k])),
        forall|j: int| 0 <= j < ms.len() ==> (#[trigger] ms[j]).0 < items.len()
            && Some(ms[j].1) == subsequence_highlight(items[ms[j].0 as int], p),
        forall|j1: int, j2: int| 0 <= j1 < j2 < ms.len() ==> ms[j1].0 < ms[j2].0,
{
    let hl = Seq::new(items.len(), |i: int| plain_highlight(SelectorMode::OrderedSubsequence, items[i], p));
    lemma_select(hl);
    assert forall|k: int| 0 <= k < items.len() implies (
        (exists|j: int| 0 <= j < ms.len() && ms[j].0 == k)
            <==> is_subsequence(p, #[trigger] items[k])) by {
        assert(hl[k] == subsequence_highlight(items[k], p));
        lemma_greedy_embedding_positions(items[k], p);
        if is_subsequence(p, items[k]) {
            let e = choose|e: Seq<int>| is_embedding(items[k], p, e);
            lemma_greedy_complete(items[k], p, e);
        }
        if greedy_embedding(items[k], p) is Some {
            assert(is_embedding(items[k], p, greedy_embedding(items[k], p)->Some_0));
        }
        if p.len() == 0 {
            assert(is_embedding(items[k], p, Seq::<int>::empty()));
        }
        if exists|j: int| 0 <= j < ms.len() && ms[j].0 == k {
            let j = choose|j: int| 0 <= j < ms.len() && ms[j].0 == k;
            assert(hl[ms[j].0 as int] is Some);
        }
    }
    assert forall|j: int| 0 <= j < ms.len() implies (#[trigger] ms[j]).0 < items.len()
        && Some(ms[j].1) == subsequence_highlight(items[ms[j].0 as int], p) by {
        assert(hl[ms[j].0 as int] == subsequence_highlight(items[ms[j].0 as int], p));
    }
}

/// Two answers that both meet `is_ranking` for the same scorer results are equal: the
/// fuzzy order is fully determined by the scores and the item order.
pub proof fn lemma_ranking_unique(
    rs: Seq<Option<(i64, Seq<usize>)>>,
    a: Seq<(usize, Seq<Span>)>,
    b: Seq<(usize, Seq<Span>)>,
)
    requires
        is_ranking(rs, a),
        is_ranking(rs, b),
    ensures
        a == b,
    decreases a.len(),
{
    if a.len() == 0 {
        if b.len() > 0 {
            assert(rs[b[0].0 as int] is Some);
        }
        assert(a =~= b);
    } else {
        if b.len() == 0 {
            assert(rs[a[0].0 as int] is Some);
        }
        let ka = a[0].0 as int;
        let kb = b[0].0 as int;
        if ka != kb {
            let i = choose|i: int| 0 <= i < a.len() && a[i].0 == kb;
            let j = choose|j: int| 0 <= j < b.len() && b[j].0 == ka;
            assert(ranks_before(rs, ka, kb));
            assert(ranks_before(rs, kb, ka));
        }
        let rs1 = rs.update(ka, None);
        let a1 = a.drop_first();
        let b1 = b.drop_first();
        assert forall|i: int| 0 <= i < a1.len() implies a1[i].0 != ka by {
            assert(ranks_before(rs, ka, a[i + 1].0 as int));
        }
        assert forall|i: int| 0 <= i < b1.len() implies b1[i].0 != ka by {
            assert(ranks_before(rs, kb, b[i + 1].0 as int));
        }
        assert forall|k: int| 0 <= k < rs1.len() && rs1[k] is Some
            implies exists|i: int| 0 <= i < a1.len() && a1[i].0 == k by {
            let i = choose|i: int| 0 <= i < a.len() && a[i].0 == k;
            assert(a1[i - 1].0 == k);
        }
        assert forall|k: int| 0 <= k < rs1.len() && rs1[k] is Some
            implies exists|i: int| 0 <= i < b1.len() && b1[i].0 == k by {
            let i = choose|i: int| 0 <= i < b.len() && b[i].0 == k;
            assert(b1[i - 1].0 == k);
        }
        assert forall|i: int, j: int| 0 <= i < j < a1.len() implies ranks_before(rs1, a1[i].0 as int, a1[j].0 as int) by {
            assert(ranks_before(rs, a[i + 1].0 as int, a[j + 1].0 as int));
        }
        assert forall|i: int, j: int| 0 <= i < j < b1.len() implies ranks_before(rs1, b1[i].0 as int, b1[j].0 as int) by {
            assert(ranks_before(rs, b[i + 1].0 as int, b[j + 1].0 as int));
        }
        lemma_ranking_unique(rs1, a1, b1);
        assert(a =~= b) by {
            assert(a[0] == b[0]);
            assert forall|i: int| 0 <= i < a.len() implies a[i] == b[i] by {
                if i > 0 {
                    assert(a[i] == a1[i - 1]);
                }
            }
        }
    }
}

} // verus!
