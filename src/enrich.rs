//! The decisions of catalog enrichment: which entries need a lookup, and how
//! a fetched title page fills an entry.
use vstd::prelude::*;

use crate::error::Error;
use crate::imdb::{
    genres_read_as, get_critics_number, get_genres, get_metascore, page_critics, page_genres,
    page_metascore, TitlePage,
};
use crate::movie::{Genre, Movie};

verus! {

/// Whether an entry still lacks one of its three fields.
pub open spec fn needs_info(m: Movie) -> bool {
    m.genres@.len() == 0 || m.critics_number is None || m.metacritic_score is None
}

/// Whether an entry still lacks its genres, its number of critics or its
/// score; an entry that lacks none needs no lookup at all.
pub fn needs_filling(movie: &Movie) -> (r: bool)
    ensures
        r == needs_info(*movie),
{
    movie.genres.len() == 0 || movie.critics_number.is_none() || movie.metacritic_score.is_none()
}

/// The genres after a fill whose page gave `read`: kept where present.
pub open spec fn filled_genres(old: Seq<Genre>, read: Seq<Genre>) -> Seq<Genre> {
    if old.len() == 0 {
        read
    } else {
        old
    }
}

/// A field after a fill: kept where present, else what the page gave, if it
/// gave one.
pub open spec fn filled_field<T>(old: Option<T>, read: Option<T>) -> Option<T> {
    match old {
        Some(x) => Some(x),
        None => read,
    }
}

/// Fills an entry from its title page. The genre list must read, or the
/// entry stays as it was and the error is returned; the number of critics
/// and the score are taken where they read and left absent where they do not.
/// Fields already present are never overwritten.
pub fn fill_from_page(movie: &mut Movie, page: &TitlePage) -> (r: Result<(), Error>)
    ensures
        fields_of(*final(movie)) == enriched(fields_of(*old(movie)), page_lookup(*page)),
        page_genres(*page) is None ==> r is Err && *final(movie) == *old(movie),
        r matches Err(e) ==> genres_read_as(Err(e), *page),
        page_genres(*page) matches Some(gs) ==> {
            &&& r is Ok
            &&& final(movie).genres@ == filled_genres(old(movie).genres@, gs)
            &&& final(movie).critics_number == filled_field(old(movie).critics_number, page_critics(*page))
            &&& final(movie).metacritic_score == filled_field(old(movie).metacritic_score, page_metascore(*page))
            &&& final(movie).name == old(movie).name
            &&& final(movie).youtube_id == old(movie).youtube_id
            &&& final(movie).year == old(movie).year
        },
{
    let genres = get_genres(page)?;
    let critics = get_critics_number(page);
    let score = get_metascore(page);
    if movie.genres.len() == 0 {
        movie.genres = genres;
    }
    if movie.critics_number.is_none() {
        movie.critics_number = match critics {
            Ok(n) => Some(n),
            Err(_) => None,
        };
    }
    if movie.metacritic_score.is_none() {
        movie.metacritic_score = match score {
            Ok(n) => Some(n),
            Err(_) => None,
        };
    }
    Ok(())
}

/// An entry whose three fields are all present needs no lookup, so enrichment
/// makes no outside call for it; and a fill from any page would leave each of
/// its fields as it was.
pub proof fn lemma_complete_entry_unchanged(
    m: Movie,
    genres: Seq<Genre>,
    critics: Option<u32>,
    score: Option<u8>,
)
    requires
        m.genres@.len() > 0,
        m.critics_number is Some,
        m.metacritic_score is Some,
    ensures
        !needs_info(m),
        filled_genres(m.genres@, genres) == m.genres@,
        filled_field(m.critics_number, critics) == m.critics_number,
        filled_field(m.metacritic_score, score) == m.metacritic_score,
{
}

/// The three fields that enrichment fills in.
pub struct Fields {
    pub genres: Seq<Genre>,
    pub critics_number: Option<u32>,
    pub metacritic_score: Option<u8>,
}

pub open spec fn fields_of(m: Movie) -> Fields {
    Fields { genres: m.genres@, critics_number: m.critics_number, metacritic_score: m.metacritic_score }
}

/// What a lookup gave for an entry: `None` where it failed (no acceptable
/// candidate, a fetch that failed, a genre list that did not read), else the
/// genres, number of critics and score that the page gave.
pub type Lookup = Option<(Seq<Genre>, Option<u32>, Option<u8>)>;

/// The fields of an entry after its enrichment with the outcome of its lookup.
pub open spec fn enriched(f: Fields, l: Lookup) -> Fields {
    match l {
        None => f,
        Some((gs, c, s)) => Fields {
            genres: filled_genres(f.genres, gs),
            critics_number: filled_field(f.critics_number, c),
            metacritic_score: filled_field(f.metacritic_score, s),
        },
    }
}

/// The lookup outcome that a title page gives.
pub open spec fn page_lookup(page: TitlePage) -> Lookup {
    match page_genres(page) {
        Some(gs) => Some((gs, page_critics(page), page_metascore(page))),
        None => None,
    }
}

/// A batch after the entries at the positions of `order` were enriched, one
/// after another, each with its own lookup outcome.
pub open spec fn run_in_order(entries: Seq<Fields>, lookups: Seq<Lookup>, order: Seq<int>) -> Seq<Fields>
    decreases order.len(),
{
    if order.len() == 0 {
        entries
    } else {
        let before = run_in_order(entries, lookups, order.drop_last());
        let i = order.last();
        if 0 <= i < before.len() && i < lookups.len() {
            before.update(i, enriched(before[i], lookups[i]))
        } else {
            before
        }
    }
}

proof fn lemma_run_entries(entries: Seq<Fields>, lookups: Seq<Lookup>, order: Seq<int>)
    requires
        lookups.len() == entries.len(),
        forall|a: int, b: int| 0 <= a < b < order.len() ==> order[a] != order[b],
        forall|a: int| 0 <= a < order.len() ==> 0 <= #[trigger] order[a] < entries.len(),
    ensures
        run_in_order(entries, lookups, order).len() == entries.len(),
        forall|i: int| 0 <= i < entries.len() ==> #[trigger] run_in_order(entries, lookups, order)[i] == if order.contains(i) {
            enriched(entries[i], lookups[i])
        } else {
            entries[i]
        },
    decreases order.len(),
{
    if order.len() > 0 {
        let o2 = order.drop_last();
        lemma_run_entries(entries, lookups, o2);
        let last = order.last();
        assert forall|i: int| 0 <= i < entries.len() implies #[trigger] run_in_order(entries, lookups, order)[i] == if order.contains(i) {
            enriched(entries[i], lookups[i])
        } else {
            entries[i]
        } by {
            if i == last {
                assert(order[order.len() - 1] == i);
                assert(!o2.contains(i)) by {
                    if o2.contains(i) {
                        let a = choose|a: int| 0 <= a < o2.len() && o2[a] == i;
                        assert(order[a] == i);
                    }
                }
            } else {
                assert(order.contains(i) == o2.contains(i)) by {
                    if order.contains(i) {
                        let a = choose|a: int| 0 <= a < order.len() && order[a] == i;
                        assert(a < order.len() - 1);
                        assert(o2[a] == i);
                    }
                    if o2.contains(i) {
                        let a = choose|a: int| 0 <= a < o2.len() && o2[a] == i;
                        assert(order[a] == i);
                    }
                }
            }
        }
    }
}

/// Enrichment of a batch does not depend on the order in which its entries
/// are taken, so on neither the number of workers nor when each finishes:
/// every order that takes each entry once gives each entry the fields that
/// its own lookup gives it.
pub proof fn lemma_order_free(entries: Seq<Fields>, lookups: Seq<Lookup>, order: Seq<int>)
    requires
        lookups.len() == entries.len(),
        order.len() == entries.len(),
        forall|a: int, b: int| 0 <= a < b < order.len() ==> order[a] != order[b],
        forall|a: int| 0 <= a < order.len() ==> 0 <= #[trigger] order[a] < entries.len(),
    ensures
        run_in_order(entries, lookups, order) == Seq::new(entries.len(), |i: int| enriched(entries[i], lookups[i])),
{
    lemma_run_entries(entries, lookups, order);
    let n = entries.len() as int;
    assert forall|i: int| 0 <= i < n implies order.contains(i) by {
        lemma_covers(order, n, i);
    }
    assert(run_in_order(entries, lookups, order) =~= Seq::new(entries.len(), |i: int| enriched(entries[i], lookups[i])));
}

/// `n` distinct positions below `n` take every position below `n`.
proof fn lemma_covers(order: Seq<int>, n: int, i: int)
    requires
        order.len() == n,
        0 <= i < n,
        forall|a: int, b: int| 0 <= a < b < order.len() ==> order[a] != order[b],
        forall|a: int| 0 <= a < order.len() ==> 0 <= #[trigger] order[a] < n,
    ensures
        order.contains(i),
{
    let s = order.to_set();
    assert(order.no_duplicates()) by {
        assert forall|a: int, b: int| 0 <= a < order.len() && 0 <= b < order.len() && a != b implies order[a] != order[b] by {
            if a < b {
            } else {
            }
        }
    }
    order.unique_seq_to_set();
    if !order.contains(i) {
        let full = vstd::set_lib::set_int_range(0, n);
        vstd::set_lib::lemma_int_range(0, n);
        assert forall|x: int| s.contains(x) implies full.remove(i).contains(x) by {
            assert(order.contains(x));
        }
        assert(full.contains(i));
        vstd::set_lib::lemma_len_subset(s, full.remove(i));
    }
}

} // verus!
