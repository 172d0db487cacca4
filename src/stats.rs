//! How many times each genre occurs over a set of entries.
use vstd::prelude::*;

use crate::movie::{genre_index, lemma_genre_index_injective, Genre, Movie};
use std::collections::HashMap;

verus! {

broadcast use vstd::std_specs::hash::group_hash_axioms;

/// Whether `g` is counted under the selection `sel` (all genres where there is none).
pub open spec fn selected_in(g: Genre, sel: Option<Seq<Genre>>) -> bool {
    match sel {
        Some(s) => s.contains(g),
        None => true,
    }
}

pub open spec fn sel_view(s: Option<Vec<Genre>>) -> Option<Seq<Genre>> {
    match s {
        Some(v) => Some(v@),
        None => None,
    }
}

/// The genres of a list that the selection counts, in order.
pub open spec fn chosen(gs: Seq<Genre>, sel: Option<Seq<Genre>>) -> Seq<Genre>
    decreases gs.len(),
{
    if gs.len() == 0 {
        Seq::empty()
    } else if selected_in(gs.last(), sel) {
        chosen(gs.drop_last(), sel).push(gs.last())
    } else {
        chosen(gs.drop_last(), sel)
    }
}

/// Every counted genre of the entries, entry after entry.
pub open spec fn tally(ms: Seq<Movie>, sel: Option<Seq<Genre>>) -> Seq<Genre>
    decreases ms.len(),
{
    if ms.len() == 0 {
        Seq::empty()
    } else {
        tally(ms.drop_last(), sel) + chosen(ms.last().genres@, sel)
    }
}

/// The number of genre entries over all the entries.
pub open spec fn total_genres(ms: Seq<Movie>) -> nat
    decreases ms.len(),
{
    if ms.len() == 0 {
        0
    } else {
        total_genres(ms.drop_last()) + ms.last().genres@.len()
    }
}

/// How many times `g` occurs in `s`.
pub open spec fn occurrences(s: Seq<Genre>, g: Genre) -> nat
    decreases s.len(),
{
    if s.len() == 0 {
        0
    } else {
        occurrences(s.drop_last(), g) + if s.last() == g { 1nat } else { 0nat }
    }
}

/// Whether every pair of `r` holds a genre and its number of occurrences in
/// `t`, each genre of `t` once, and no other genre.
pub open spec fn counts_of(r: Seq<(Genre, usize)>, t: Seq<Genre>) -> bool {
    &&& forall|k: int| 0 <= k < r.len() ==> #[trigger] r[k].1 == occurrences(t, r[k].0) && r[k].1 > 0
    &&& forall|g: Genre| occurrences(t, g) > 0 ==> exists|k: int| 0 <= k < r.len() && #[trigger] r[k].0 == g
    &&& forall|a: int, b: int| 0 <= a < b < r.len() ==> r[a].0 != r[b].0
}

/// Whether the counts of `r` never decrease.
pub open spec fn ascending(r: Seq<(Genre, usize)>) -> bool {
    forall|a: int, b: int| 0 <= a < b < r.len() ==> r[a].1 <= r[b].1
}

proof fn lemma_occurrences_bound(s: Seq<Genre>, g: Genre)
    ensures
        occurrences(s, g) <= s.len(),
    decreases s.len(),
{
    if s.len() > 0 {
        lemma_occurrences_bound(s.drop_last(), g);
    }
}

proof fn lemma_chosen_len(gs: Seq<Genre>, sel: Option<Seq<Genre>>)
    ensures
        chosen(gs, sel).len() <= gs.len(),
    decreases gs.len(),
{
    if gs.len() > 0 {
        lemma_chosen_len(gs.drop_last(), sel);
    }
}

proof fn lemma_tally_len(ms: Seq<Movie>, sel: Option<Seq<Genre>>)
    ensures
        tally(ms, sel).len() <= total_genres(ms),
    decreases ms.len(),
{
    if ms.len() > 0 {
        lemma_tally_len(ms.drop_last(), sel);
        lemma_chosen_len(ms.last().genres@, sel);
    }
}

proof fn lemma_tally_prefix(ms: Seq<Movie>, i: int, sel: Option<Seq<Genre>>)
    requires
        0 <= i <= ms.len(),
    ensures
        tally(ms.subrange(0, i), sel).len() <= tally(ms, sel).len(),
    decreases ms.len(),
{
    if i < ms.len() {
        lemma_tally_prefix(ms.drop_last(), i, sel);
        assert(ms.drop_last().subrange(0, i) =~= ms.subrange(0, i));
    } else {
        assert(ms.subrange(0, i) =~= ms);
    }
}

proof fn lemma_chosen_prefix(gs: Seq<Genre>, j: int, sel: Option<Seq<Genre>>)
    requires
        0 <= j <= gs.len(),
    ensures
        chosen(gs.subrange(0, j), sel).len() <= chosen(gs, sel).len(),
    decreases gs.len(),
{
    if j < gs.len() {
        lemma_chosen_prefix(gs.drop_last(), j, sel);
        assert(gs.drop_last().subrange(0, j) =~= gs.subrange(0, j));
    } else {
        assert(gs.subrange(0, j) =~= gs);
    }
}

fn genre_in(v: &Vec<Genre>, g: Genre) -> (r: bool)
    ensures
        r == v@.contains(g),
{
    let mut i: usize = 0;
    while i < v.len()
        invariant
            i <= v@.len(),
            forall|k: int| 0 <= k < i ==> v@[k] != g,
        decreases v.len() - i,
    {
        if v[i] == g {
            assert(v@[i as int] == g);
            return true;
        }
        i += 1;
    }
    false
}

fn is_selected(g: Genre, selected: &Option<Vec<Genre>>) -> (r: bool)
    ensures
        r == selected_in(g, sel_view(*selected)),
{
    match selected {
        None => true,
        Some(v) => genre_in(v, g),
    }
}

/// Whether `counts`, keyed by genre position, and `order`, the genres in the
/// order first seen, hold the tally of `seen`.
pub open spec fn tallied(counts: Map<u8, usize>, order: Seq<Genre>, seen: Seq<Genre>) -> bool {
    &&& forall|g: Genre| #[trigger] order.contains(g) <==> occurrences(seen, g) > 0
    &&& forall|g: Genre| #[trigger] counts.contains_key(genre_index(g)) <==> order.contains(g)
    &&& forall|g: Genre| order.contains(g) ==> #[trigger] counts[genre_index(g)] == occurrences(seen, g)
    &&& forall|a: int, b: int| 0 <= a < b < order.len() ==> order[a] != order[b]
}

/// Adds one occurrence of `g` to the tally.
fn add_one(
    counts: &mut HashMap<u8, usize>,
    order: &mut Vec<Genre>,
    g: Genre,
    Ghost(seen): Ghost<Seq<Genre>>,
)
    requires
        tallied(old(counts)@, old(order)@, seen),
        seen.len() < usize::MAX,
    ensures
        tallied(final(counts)@, final(order)@, seen.push(g)),
{
    let ghost t = seen.push(g);
    proof {
        lemma_genre_index_injective();
        assert forall|h: Genre| occurrences(t, h) == occurrences(seen, h) + if h == g { 1nat } else { 0nat } by {
            assert(t.drop_last() =~= seen);
        }
    }
    let k = g.index();
    let ghost before = counts@;
    let ghost order0 = order@;
    match counts.get(&k) {
        Some(c) => {
            let c = *c;
            proof {
                assert(before.contains_key(genre_index(g)));
                assert(order0.contains(g));
                lemma_occurrences_bound(seen, g);
            }
            counts.insert(k, c + 1);
            proof {
                assert forall|h: Genre| order@.contains(h) implies #[trigger] counts@[genre_index(h)] == occurrences(t, h) by {
                    if h != g {
                        assert(genre_index(h) != genre_index(g));
                    }
                }
                assert forall|h: Genre| #[trigger] counts@.contains_key(genre_index(h)) <==> order@.contains(h) by {
                    if h != g {
                        assert(genre_index(h) != genre_index(g));
                    }
                }
            }
        },
        None => {
            proof {
                assert(!before.contains_key(genre_index(g)));
                assert(!order0.contains(g));
            }
            counts.insert(k, 1);
            order.push(g);
            proof {
                assert forall|h: Genre| #[trigger] order@.contains(h) <==> order0.contains(h) || h == g by {
                    if order@.contains(h) {
                        let m = choose|m: int| 0 <= m < order@.len() && order@[m] == h;
                        if m < order0.len() {
                            assert(order0[m] == h);
                        }
                    }
                    if order0.contains(h) {
                        let m = choose|m: int| 0 <= m < order0.len() && order0[m] == h;
                        assert(order@[m] == h);
                    }
                    if h == g {
                        assert(order@[order0.len() as int] == h);
                    }
                }
                assert forall|h: Genre| order@.contains(h) implies #[trigger] counts@[genre_index(h)] == occurrences(t, h) by {
                    if h != g {
                        assert(genre_index(h) != genre_index(g));
                    }
                }
                assert forall|h: Genre| #[trigger] counts@.contains_key(genre_index(h)) <==> order@.contains(h) by {
                    if h != g {
                        assert(genre_index(h) != genre_index(g));
                    }
                }
                assert forall|a: int, b: int| 0 <= a < b < order@.len() implies order@[a] != order@[b] by {
                    if b == order0.len() {
                        assert(order@[a] == order0[a]);
                    }
                }
            }
        },
    }
}

/// Inserts a pair into counts kept in ascending order, after the pairs with
/// no larger count.
fn insert_sorted(out: &mut Vec<(Genre, usize)>, x: (Genre, usize)) -> (p: usize)
    requires
        ascending(old(out)@),
    ensures
        ascending(final(out)@),
        p <= old(out)@.len(),
        final(out)@ == old(out)@.insert(p as int, x),
{
    let mut p: usize = 0;
    while p < out.len() && out[p].1 <= x.1
        invariant
            p <= out@.len(),
            forall|m: int| 0 <= m < p ==> out@[m].1 <= x.1,
        decreases out.len() - p,
    {
        p += 1;
    }
    let ghost before = out@;
    out.insert(p, x);
    proof {
        let r = out@;
        assert forall|a: int, b: int| 0 <= a < b < r.len() implies r[a].1 <= r[b].1 by {
            if b < p {
            } else if b == p {
            } else if a < p {
                assert(r[b] == before[b - 1]);
                if p < before.len() {
                    assert(before[p as int].1 > x.1);
                    if b - 1 > p {
                        assert(before[p as int].1 <= before[b - 1].1);
                    }
                }
            } else if a == p {
                assert(before[p as int].1 > x.1);
                if b - 1 > p {
                    assert(before[p as int].1 <= before[b - 1].1);
                }
            } else {
                assert(r[a] == before[a - 1]);
                assert(r[b] == before[b - 1]);
            }
        }
    }
    p
}

/// Whether the pairs of `out` are pairs of `counts[..k]` with distinct genres,
/// and every pair of `counts[..k]` is in `out`.
pub open spec fn holds_first(out: Seq<(Genre, usize)>, counts: Seq<(Genre, usize)>, k: int) -> bool {
    &&& forall|m: int| #![trigger out[m]] 0 <= m < out.len() ==> exists|q: int| 0 <= q < k && #[trigger] out[m] == counts[q]
    &&& forall|q: int| #![trigger counts[q]] 0 <= q < k ==> exists|m: int| 0 <= m < out.len() && #[trigger] out[m] == counts[q]
    &&& forall|a: int, b: int| 0 <= a < b < out.len() ==> out[a].0 != out[b].0
}

proof fn lemma_holds_next_from(before: Seq<(Genre, usize)>, counts: Seq<(Genre, usize)>, k: int, p: int)
    requires
        0 <= k < counts.len(),
        0 <= p <= before.len(),
        holds_first(before, counts, k),
    ensures
        ({
            let out = before.insert(p, counts[k]);
            forall|m: int| #![trigger out[m]] 0 <= m < out.len() ==> exists|q: int| 0 <= q < k + 1 && #[trigger] out[m] == counts[q]
        }),
{
    let out = before.insert(p, counts[k]);
    assert forall|m: int| #![trigger out[m]] 0 <= m < out.len() implies exists|q: int| 0 <= q < k + 1 && #[trigger] out[m] == counts[q] by {
        if m < p {
            assert(out[m] == before[m]);
            let q = choose|q: int| 0 <= q < k && #[trigger] before[m] == counts[q];
            assert(out[m] == counts[q]);
        } else if m == p {
            assert(out[m] == counts[k]);
        } else {
            assert(out[m] == before[m - 1]);
            let q = choose|q: int| 0 <= q < k && #[trigger] before[m - 1] == counts[q];
            assert(out[m] == counts[q]);
        }
    }
}

proof fn lemma_holds_next_to(before: Seq<(Genre, usize)>, counts: Seq<(Genre, usize)>, k: int, p: int)
    requires
        0 <= k < counts.len(),
        0 <= p <= before.len(),
        holds_first(before, counts, k),
    ensures
        ({
            let out = before.insert(p, counts[k]);
            forall|q: int| #![trigger counts[q]] 0 <= q < k + 1 ==> exists|m: int| 0 <= m < out.len() && #[trigger] out[m] == counts[q]
        }),
{
    let out = before.insert(p, counts[k]);
    assert forall|q: int| #![trigger counts[q]] 0 <= q < k + 1 implies exists|m: int| 0 <= m < out.len() && #[trigger] out[m] == counts[q] by {
        if q == k {
            assert(out[p] == counts[q]);
        } else {
            let m = choose|m: int| 0 <= m < before.len() && #[trigger] before[m] == counts[q];
            if m < p {
                assert(out[m] == counts[q]);
            } else {
                assert(out[m + 1] == counts[q]);
            }
        }
    }
}

proof fn lemma_holds_next_distinct(before: Seq<(Genre, usize)>, counts: Seq<(Genre, usize)>, k: int, p: int)
    requires
        0 <= k < counts.len(),
        0 <= p <= before.len(),
        forall|a: int, b: int| 0 <= a < b < counts.len() ==> counts[a].0 != counts[b].0,
        holds_first(before, counts, k),
    ensures
        ({
            let out = before.insert(p, counts[k]);
            forall|a: int, b: int| 0 <= a < b < out.len() ==> out[a].0 != out[b].0
        }),
{
    let out = before.insert(p, counts[k]);
    assert forall|a: int, b: int| 0 <= a < b < out.len() implies out[a].0 != out[b].0 by {
        let ia = if a < p { a } else { a - 1 };
        let ib = if b < p { b } else { b - 1 };
        if a == p {
            assert(out[b] == before[ib]);
            let q = choose|q: int| 0 <= q < k && #[trigger] before[ib] == counts[q];
        } else if b == p {
            assert(out[a] == before[ia]);
            let q = choose|q: int| 0 <= q < k && #[trigger] before[ia] == counts[q];
        } else {
            assert(out[a] == before[ia]);
            assert(out[b] == before[ib]);
        }
    }
}

proof fn lemma_holds_next(before: Seq<(Genre, usize)>, counts: Seq<(Genre, usize)>, k: int, p: int)
    requires
        0 <= k < counts.len(),
        0 <= p <= before.len(),
        forall|a: int, b: int| 0 <= a < b < counts.len() ==> counts[a].0 != counts[b].0,
        holds_first(before, counts, k),
    ensures
        holds_first(before.insert(p, counts[k]), counts, k + 1),
{
    lemma_holds_next_from(before, counts, k, p);
    lemma_holds_next_to(before, counts, k, p);
    lemma_holds_next_distinct(before, counts, k, p);
}

/// The pairs of `counts` in ascending order of their counts, ties in their
/// order in `counts`.
fn sort_by_count(counts: &Vec<(Genre, usize)>) -> (out: Vec<(Genre, usize)>)
    requires
        forall|a: int, b: int| 0 <= a < b < counts@.len() ==> counts@[a].0 != counts@[b].0,
    ensures
        ascending(out@),
        holds_first(out@, counts@, counts@.len() as int),
{
    let mut out: Vec<(Genre, usize)> = Vec::new();
    let mut k: usize = 0;
    while k < counts.len()
        invariant
            k <= counts@.len(),
            forall|a: int, b: int| 0 <= a < b < counts@.len() ==> counts@[a].0 != counts@[b].0,
            ascending(out@),
            holds_first(out@, counts@, k as int),
        decreases counts.len() - k,
    {
        let ghost before = out@;
        let p = insert_sorted(&mut out, counts[k]);
        proof {
            lemma_holds_next(before, counts@, k as int, p as int);
        }
        k += 1;
    }
    out
}

proof fn lemma_sorted_counts(r: Seq<(Genre, usize)>, counts: Seq<(Genre, usize)>, full: Seq<Genre>)
    requires
        counts_of(counts, full),
        holds_first(r, counts, counts.len() as int),
    ensures
        counts_of(r, full),
{
    assert forall|m: int| 0 <= m < r.len() implies #[trigger] r[m].1 == occurrences(full, r[m].0) && r[m].1 > 0 by {
        let q = choose|q: int| 0 <= q < counts.len() && #[trigger] r[m] == counts[q];
        assert(counts[q].1 == occurrences(full, counts[q].0));
    }
    assert forall|g: Genre| occurrences(full, g) > 0 implies exists|m: int| 0 <= m < r.len() && #[trigger] r[m].0 == g by {
        let q = choose|q: int| 0 <= q < counts.len() && #[trigger] counts[q].0 == g;
        let m = choose|m: int| 0 <= m < r.len() && #[trigger] r[m] == counts[q];
        assert(r[m].0 == g);
    }
}

fn tally_counts(movies: &Vec<Movie>, selected: &Option<Vec<Genre>>) -> (r: Vec<(Genre, usize)>)
    requires
        total_genres(movies@) <= usize::MAX,
    ensures
        counts_of(r@, tally(movies@, sel_view(*selected))),
{
    let ghost sel = sel_view(*selected);
    let ghost full = tally(movies@, sel);
    proof {
        lemma_tally_len(movies@, sel);
    }
    let mut counts: HashMap<u8, usize> = HashMap::new();
    let mut order: Vec<Genre> = Vec::new();
    let mut i: usize = 0;
    assert(movies@.subrange(0, 0) =~= Seq::<Movie>::empty());
    while i < movies.len()
        invariant
            i <= movies@.len(),
            full == tally(movies@, sel),
            full.len() <= usize::MAX,
            sel == sel_view(*selected),
            tallied(counts@, order@, tally(movies@.subrange(0, i as int), sel)),
        decreases movies.len() - i,
    {
        let gs = &movies[i].genres;
        let ghost base = tally(movies@.subrange(0, i as int), sel);
        proof {
            lemma_tally_prefix(movies@, i + 1, sel);
            let next = movies@.subrange(0, i + 1);
            assert(next.drop_last() =~= movies@.subrange(0, i as int));
            assert(gs@.subrange(0, 0) =~= Seq::<Genre>::empty());
            assert(base + chosen(gs@.subrange(0, 0), sel) =~= base);
        }
        let mut j: usize = 0;
        while j < gs.len()
            invariant
                j <= gs@.len(),
                gs@ == movies@[i as int].genres@,
                base + chosen(gs@, sel) == tally(movies@.subrange(0, i + 1), sel),
                tally(movies@.subrange(0, i + 1), sel).len() <= usize::MAX,
                sel == sel_view(*selected),
                tallied(counts@, order@, base + chosen(gs@.subrange(0, j as int), sel)),
            decreases gs.len() - j,
        {
            let g = gs[j];
            let ghost before = base + chosen(gs@.subrange(0, j as int), sel);
            proof {
                assert(gs@.subrange(0, j + 1).drop_last() =~= gs@.subrange(0, j as int));
                lemma_chosen_prefix(gs@, j + 1, sel);
                lemma_chosen_prefix(gs@, j as int, sel);
            }
            if is_selected(g, selected) {
                assert(base + chosen(gs@.subrange(0, j + 1), sel) =~= before.push(g));
                add_one(&mut counts, &mut order, g, Ghost(before));
            }
            j += 1;
        }
        assert(gs@.subrange(0, j as int) =~= gs@);
        i += 1;
    }
    assert(movies@.subrange(0, i as int) =~= movies@);
    let mut pairs: Vec<(Genre, usize)> = Vec::new();
    let mut k: usize = 0;
    while k < order.len()
        invariant
            k <= order@.len(),
            tallied(counts@, order@, full),
            pairs@.len() == k,
            forall|m: int| 0 <= m < k ==> #[trigger] pairs@[m] == (order@[m], counts@[genre_index(order@[m])]),
        decreases order.len() - k,
    {
        let g = order[k];
        assert(order@.contains(g));
        match counts.get(&g.index()) {
            Some(c) => {
                pairs.push((g, *c));
            },
            None => {
                assert(false);
            },
        }
        k += 1;
    }
    proof {
        let r = pairs@;
        assert forall|m: int| 0 <= m < r.len() implies #[trigger] r[m].1 == occurrences(full, r[m].0) && r[m].1 > 0 by {
            assert(order@.contains(order@[m]));
        }
        assert forall|g: Genre| occurrences(full, g) > 0 implies exists|m: int| 0 <= m < r.len() && #[trigger] r[m].0 == g by {
            assert(order@.contains(g));
            let m = choose|m: int| 0 <= m < order@.len() && order@[m] == g;
            assert(r[m].0 == g);
        }
        assert forall|a: int, b: int| 0 <= a < b < r.len() implies r[a].0 != r[b].0 by {
            assert(r[a].0 == order@[a]);
            assert(r[b].0 == order@[b]);
        }
    }
    pairs
}

/// Counts how many times each genre occurs over the entries, only the
/// genres of `selected` where it is given, and returns the pairs in
/// ascending order of their counts.
pub fn count_genres(movies: &Vec<Movie>, selected: &Option<Vec<Genre>>) -> (r: Vec<(Genre, usize)>)
    requires
        total_genres(movies@) <= usize::MAX,
    ensures
        counts_of(r@, tally(movies@, sel_view(*selected))),
        ascending(r@),
{
    let counts = tally_counts(movies, selected);
    let out = sort_by_count(&counts);
    proof {
        lemma_sorted_counts(out@, counts@, tally(movies@, sel_view(*selected)));
    }
    out
}

} // verus!
