//! Catalog rows into entries, and the integrity check of the catalog archive.
use vstd::prelude::*;

use crate::error::Error;
use crate::movie::Movie;
use crate::text::{chars_of, string_from_chars, trim_text, trimmed};
use crate::title::{extract_name_and_year, normalized_name, normalized_year};

verus! {

/// One row of the catalog file: its video id and its raw title.
#[derive(Debug, Clone)]
pub struct CatalogRow {
    pub youtube_id: String,
    pub title: String,
}

/// Whether `m` is the fresh entry for a catalog row: the trimmed title
/// normalised, the video id, and no metadata yet.
pub open spec fn entry_of(m: Movie, row: CatalogRow) -> bool {
    &&& m.name@ == normalized_name(trimmed(row.title@))
    &&& m.year == normalized_year(trimmed(row.title@))
    &&& m.youtube_id@ == row.youtube_id@
    &&& m.genres@.len() == 0
    &&& m.critics_number is None
    &&& m.metacritic_score is None
}

/// The fresh entry for a catalog row.
pub fn movie_from_row(row: &CatalogRow) -> (r: Movie)
    ensures
        entry_of(r, *row),
{
    let raw = trim_text(row.title.as_str());
    let (name, year) = extract_name_and_year(raw.as_str());
    Movie {
        name,
        youtube_id: row.youtube_id.clone(),
        year,
        genres: Vec::new(),
        critics_number: None,
        metacritic_score: None,
    }
}

/// The fresh entries for the rows of the catalog file, in order.
pub fn from_rows(rows: &Vec<CatalogRow>) -> (r: Vec<Movie>)
    ensures
        r@.len() == rows@.len(),
        forall|i: int| 0 <= i < rows@.len() ==> entry_of(#[trigger] r@[i], rows@[i]),
{
    let mut movies: Vec<Movie> = Vec::new();
    let mut i: usize = 0;
    while i < rows.len()
        invariant
            i <= rows@.len(),
            movies@.len() == i,
            forall|k: int| 0 <= k < i ==> entry_of(#[trigger] movies@[k], rows@[k]),
        decreases rows.len() - i,
    {
        movies.push(movie_from_row(&rows[i]));
        i += 1;
    }
    movies
}

/// `s` with every occurrence of the non-empty `p` removed, scanning left to
/// right as `str::replace` does with an empty replacement.
pub open spec fn without(s: Seq<char>, p: Seq<char>) -> Seq<char>
    decreases s.len(),
{
    if s.len() == 0 {
        s
    } else if p.len() > 0 && p.len() <= s.len() && s.subrange(0, p.len() as int) == p {
        without(s.subrange(p.len() as int, s.len() as int), p)
    } else {
        seq![s[0]] + without(s.drop_first(), p)
    }
}

fn starts_at(s: &Vec<char>, i: usize, p: &Vec<char>) -> (r: bool)
    requires
        i <= s@.len(),
    ensures
        r == (p@.len() <= s@.len() - i && s@.subrange(i as int, i + p@.len()) == p@),
{
    if p.len() > s.len() - i {
        return false;
    }
    let mut j: usize = 0;
    while j < p.len()
        invariant
            i <= s@.len() <= usize::MAX,
            p@.len() <= s@.len() - i,
            j <= p@.len(),
            forall|k: int| 0 <= k < j ==> s@[i + k] == p@[k],
        decreases p.len() - j,
    {
        if s[i + j] != p[j] {
            assert(s@.subrange(i as int, i + p@.len())[j as int] != p@[j as int]);
            return false;
        }
        j += 1;
    }
    assert(s@.subrange(i as int, i + p@.len()) =~= p@);
    true
}

/// `s` with every occurrence of the non-empty `p` removed.
pub fn remove_all(s: &str, p: &str) -> (r: String)
    requires
        p@.len() > 0,
    ensures
        r@ == without(s@, p@),
{
    let cs = chars_of(s);
    let pv = chars_of(p);
    let mut out: Vec<char> = Vec::new();
    let mut i: usize = 0;
    assert(cs@.subrange(0, cs@.len() as int) =~= cs@);
    while i < cs.len()
        invariant
            i <= cs@.len(),
            cs@ == s@,
            pv@ == p@,
            pv@.len() > 0,
            without(s@, p@) == out@ + without(cs@.subrange(i as int, cs@.len() as int), p@),
        decreases cs.len() - i,
    {
        let ghost rest = cs@.subrange(i as int, cs@.len() as int);
        if starts_at(&cs, i, &pv) {
            assert(rest.subrange(0, pv@.len() as int) =~= cs@.subrange(i as int, i + pv@.len()));
            assert(rest.subrange(pv@.len() as int, rest.len() as int) =~= cs@.subrange(i + pv@.len(), cs@.len() as int));
            i += pv.len();
        } else {
            assert(rest.subrange(0, pv@.len() as int) =~= cs@.subrange(i as int, i + pv@.len()) || pv@.len() > rest.len());
            assert(rest.drop_first() =~= cs@.subrange(i + 1, cs@.len() as int));
            assert(out@.push(cs@[i as int]) + without(rest.drop_first(), p@) =~= out@ + (seq![rest[0]] + without(rest.drop_first(), p@)));
            out.push(cs[i]);
            i += 1;
        }
    }
    assert(cs@.subrange(i as int, cs@.len() as int) =~= Seq::<char>::empty());
    assert(out@ + Seq::<char>::empty() =~= out@);
    string_from_chars(&out)
}

/// The label that the published checksum carries before the digest.
pub const CHECKSUM_LABEL: &'static str = "MD5 (ml-youtube.zip) = ";

/// The digest that a published checksum listing names: the listing without
/// its label, trimmed.
pub open spec fn listed_digest(listing: Seq<char>) -> Seq<char> {
    trimmed(without(listing, CHECKSUM_LABEL@))
}

/// Whether `r` is the outcome of comparing a computed digest with the one
/// that a checksum listing names.
pub open spec fn digest_checked(r: Result<(), Error>, listing: Seq<char>, computed: Seq<char>) -> bool {
    if listed_digest(listing) == computed {
        r is Ok
    } else {
        r matches Err(Error::Checksum(a, b)) && a@ == computed && b@ == listed_digest(listing)
    }
}

/// Compares a computed digest with the one that a checksum listing names.
pub fn check_digest(listing: &str, computed: &String) -> (r: Result<(), Error>)
    ensures
        digest_checked(r, listing@, computed@),
{
    proof {
        reveal_strlit("MD5 (ml-youtube.zip) = ");
    }
    let stripped = remove_all(listing, CHECKSUM_LABEL);
    let listed = trim_text(stripped.as_str());
    if listed == *computed {
        Ok(())
    } else {
        Err(Error::Checksum(computed.clone(), listed))
    }
}

/// The lower-case hexadecimal MD5 digest of some bytes.
pub uninterp spec fn md5_hex_of(data: Seq<u8>) -> Seq<char>;

/// Relies on `md5::compute` and the `LowerHex` form of its digest: two
/// lower-case hexadecimal digits for each of the sixteen bytes.
#[verifier::external_body]
fn md5_hex(data: &Vec<u8>) -> (r: String)
    ensures
        r@ == md5_hex_of(data@),
        r@.len() == 32,
{
    format!("{:x}", md5::compute(data))
}

/// Checks a downloaded archive against its published checksum listing.
pub fn verify_archive(listing: &str, archive: &Vec<u8>) -> (r: Result<(), Error>)
    ensures
        digest_checked(r, listing@, md5_hex_of(archive@)),
{
    let computed = md5_hex(archive);
    check_digest(listing, &computed)
}

} // verus!
