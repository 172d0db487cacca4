//! Resolution of a title against a search listing, and the fields read from a
//! title page.
use vstd::prelude::*;

use crate::error::Error;
use crate::movie::{genre_of_token, Genre};
use crate::text::{
    append_chars, chars_of, contains_text, decimal_digits, push_decimal, lower_of, occurs_in, parse_unsigned, parsed_unsigned,
    same_text, string_from_chars, to_lower, trim_text, trimmed,
};

verus! {

/// The pattern that finds a title id in a result link.
pub const HREF_ID_PATTERN: &'static str = "/tt(\\d+)/";

/// The pattern of the text after a result link: a four-digit year in
/// parentheses, then optionally a parenthesised kind.
pub const YEAR_TYPE_PATTERN: &'static str = "\\((\\d{4})\\)\\s*(?:\\((.*)\\))?\\s*$";

/// The groups of the leftmost match of a regular expression in a text, where
/// it matches: group `0` is the whole match, a group that took no part is `None`.
pub uninterp spec fn regex_captures(pattern: Seq<char>, text: Seq<char>) -> Option<Seq<Option<Seq<char>>>>;

pub open spec fn group_view(g: Option<String>) -> Option<Seq<char>> {
    match g {
        Some(s) => Some(s@),
        None => None,
    }
}

pub open spec fn captures_view(r: Option<Vec<Option<String>>>) -> Option<Seq<Option<Seq<char>>>> {
    match r {
        Some(v) => Some(v@.map_values(|g: Option<String>| group_view(g))),
        None => None,
    }
}

/// Relies on `regex::Regex::new` and `Regex::captures`: the groups of the
/// leftmost-first match of `pattern` in `text`; `None` where nothing matches
/// or the pattern does not compile.
#[verifier::external_body]
pub(crate) fn captures(pattern: &str, text: &str) -> (r: Option<Vec<Option<String>>>)
    ensures
        captures_view(r) == regex_captures(pattern@, text@),
{
    let re = regex::Regex::new(pattern).ok()?;
    let caps = re.captures(text)?;
    Some(caps.iter().map(|m| m.map(|m| m.as_str().to_string())).collect())
}

/// Group `k` of a match, if there is a match and the group took part in it.
pub open spec fn group(c: Option<Seq<Option<Seq<char>>>>, k: int) -> Option<Seq<char>> {
    match c {
        Some(gs) => if 0 <= k < gs.len() {
            gs[k]
        } else {
            None
        },
        None => None,
    }
}

fn get_group(c: &Option<Vec<Option<String>>>, k: usize) -> (r: Option<String>)
    ensures
        group_view(r) == group(captures_view(*c), k as int),
{
    match c {
        Some(gs) => if k < gs.len() {
            match &gs[k] {
                Some(s) => Some(s.clone()),
                None => None,
            }
        } else {
            None
        },
        None => None,
    }
}

/// One row of a search listing as the page shows it: the target and the text
/// of the result link, and the text that follows the link.
#[derive(Debug, Clone)]
pub struct SearchHit {
    pub href: String,
    pub link_text: String,
    pub trailing_text: String,
}

/// A search result read from its row.
#[derive(Debug, Clone)]
pub struct SearchCandidate {
    pub id: u32,
    pub name: String,
    /// `0` where the row gives no year.
    pub year: u32,
    pub title_type: Option<String>,
}

/// What a row gives once its link and its trailing text are matched.
pub enum Reading {
    /// The link holds no title id: the row is not a candidate.
    Skipped,
    /// A number of the row that does not read as one.
    Unparsable(Seq<char>),
    /// A candidate: its id, year and kind.
    Read(u32, u32, Option<Seq<char>>),
}

/// What a row gives, from the id group of its link and the groups of its
/// trailing text.
pub open spec fn reading_of(id_group: Option<Seq<char>>, year_caps: Option<Seq<Option<Seq<char>>>>) -> Reading {
    match id_group {
        None => Reading::Skipped,
        Some(digits) => match parsed_unsigned(digits, u32::MAX as nat) {
            None => Reading::Unparsable(digits),
            Some(id) => match group(year_caps, 1) {
                None => Reading::Read(id as u32, 0, group(year_caps, 2)),
                Some(ys) => match parsed_unsigned(ys, i32::MAX as nat) {
                    None => Reading::Unparsable(ys),
                    Some(y) => Reading::Read(id as u32, y as u32, group(year_caps, 2)),
                },
            },
        },
    }
}

/// Whether `r` is what reading a row with link text `name` gives.
pub open spec fn read_as(r: Result<Option<SearchCandidate>, Error>, v: Reading, name: Seq<char>) -> bool {
    match v {
        Reading::Skipped => r matches Ok(None),
        Reading::Unparsable(s) => r matches Err(Error::ParseError(e)) && e@ == s,
        Reading::Read(id, year, kind) => r matches Ok(Some(c)) && c.id == id && c.year == year
            && c.name@ == name && group_view(c.title_type) == kind,
    }
}

/// Builds a candidate from the matches of a row: the groups of its link's
/// target under the id pattern, its link text, and the groups of its trailing
/// text under the year-and-kind pattern.
pub fn read_candidate(
    id_caps: &Option<Vec<Option<String>>>,
    name: &String,
    year_caps: &Option<Vec<Option<String>>>,
) -> (r: Result<Option<SearchCandidate>, Error>)
    ensures
        read_as(r, reading_of(group(captures_view(*id_caps), 1), captures_view(*year_caps)), name@),
{
    let digits = match get_group(id_caps, 1) {
        Some(d) => d,
        None => return Ok(None),
    };
    let dv = chars_of(digits.as_str());
    let id = match parse_unsigned(&dv, u32::MAX) {
        Some(id) => id,
        None => return Err(Error::ParseError(digits)),
    };
    let year = match get_group(year_caps, 1) {
        None => 0,
        Some(ys) => {
            let yv = chars_of(ys.as_str());
            match parse_unsigned(&yv, 2147483647) {
                Some(y) => y,
                None => return Err(Error::ParseError(ys)),
            }
        },
    };
    let title_type = get_group(year_caps, 2);
    Ok(Some(SearchCandidate { id, name: name.clone(), year, title_type }))
}

/// Reads a row of the search listing.
pub fn parse_hit(hit: &SearchHit) -> (r: Result<Option<SearchCandidate>, Error>)
    ensures
        read_as(
            r,
            reading_of(
                group(regex_captures(HREF_ID_PATTERN@, hit.href@), 1),
                regex_captures(YEAR_TYPE_PATTERN@, hit.trailing_text@),
            ),
            hit.link_text@,
        ),
{
    let id_caps = captures(HREF_ID_PATTERN, hit.href.as_str());
    let year_caps = captures(YEAR_TYPE_PATTERN, hit.trailing_text.as_str());
    read_candidate(&id_caps, &hit.link_text, &year_caps)
}

/// Whether a result kind names an episodic television title: it says "TV"
/// but neither "TV Movie" nor "TV Special".
pub open spec fn episodic(kind: Option<Seq<char>>) -> bool {
    match kind {
        Some(t) => occurs_in("TV"@, t) && !occurs_in("TV Movie"@, t) && !occurs_in("TV Special"@, t),
        None => false,
    }
}

/// Whether a candidate of this kind is left out of the resolution.
pub fn is_episodic(title_type: &Option<String>) -> (r: bool)
    ensures
        r == episodic(group_view(*title_type)),
{
    match title_type {
        Some(t) => contains_text(t.as_str(), "TV") && !contains_text(t.as_str(), "TV Movie")
            && !contains_text(t.as_str(), "TV Special"),
        None => false,
    }
}

/// Whether two names are the same once trimmed and lower-cased.
pub open spec fn same_name(a: Seq<char>, b: Seq<char>) -> bool {
    lower_of(trimmed(a)) == lower_of(trimmed(b))
}

/// Compares two names once trimmed and lower-cased.
pub fn same_title(a: &str, b: &str) -> (r: bool)
    ensures
        r == same_name(a@, b@),
{
    let ta = trim_text(a);
    let tb = trim_text(b);
    let la = to_lower(ta.as_str());
    let lb = to_lower(tb.as_str());
    la == lb
}

/// The distance between two years.
pub open spec fn year_gap(a: u32, b: u32) -> nat {
    if a >= b {
        (a - b) as nat
    } else {
        (b - a) as nat
    }
}

/// The loss of a candidate: `1`, or `2` where names must match exactly but do
/// not, times the distance between the years.
pub open spec fn loss(exact: bool, names_match: bool, year: u32, cand_year: u32) -> nat {
    (if !exact && !names_match { 2nat } else { 1nat }) * year_gap(year, cand_year)
}

/// The loss of a candidate against the searched year.
pub fn candidate_loss(exact: bool, names_match: bool, year: u32, cand_year: u32) -> (r: u64)
    ensures
        r == loss(exact, names_match, year, cand_year),
{
    let gap: u64 = if year >= cand_year {
        (year - cand_year) as u64
    } else {
        (cand_year - year) as u64
    };
    if !exact && !names_match {
        2 * gap
    } else {
        gap
    }
}

/// A row of the search listing once read and scored.
#[derive(Debug, Clone)]
pub enum HitScore {
    /// Not a candidate, or not one that can be scored.
    Skipped,
    /// A number of the row did not read as one; resolution fails with it.
    Unparsable(String),
    /// A candidate: its loss and its title id.
    Scored(u64, u32),
}

/// A scored row, as the contracts speak of it.
pub enum Scoring {
    Skipped,
    Unparsable(Seq<char>),
    Scored(nat, u32),
}

impl View for HitScore {
    type V = Scoring;

    open spec fn view(&self) -> Scoring {
        match self {
            HitScore::Skipped => Scoring::Skipped,
            HitScore::Unparsable(s) => Scoring::Unparsable(s@),
            HitScore::Scored(l, id) => Scoring::Scored(*l as nat, *id),
        }
    }
}

/// How a row scores against the searched name and year. Episodic television
/// rows are left out, and without a searched year nothing can be scored.
pub open spec fn scoring(
    name: Seq<char>,
    year: Option<u32>,
    exact: bool,
    reading: Reading,
    cand_name: Seq<char>,
) -> Scoring {
    match reading {
        Reading::Skipped => Scoring::Skipped,
        Reading::Unparsable(s) => Scoring::Unparsable(s),
        Reading::Read(id, cand_year, kind) => if episodic(kind) {
            Scoring::Skipped
        } else {
            match year {
                None => Scoring::Skipped,
                Some(y) => Scoring::Scored(loss(exact, same_name(name, cand_name), y, cand_year), id),
            }
        },
    }
}

/// How a row of the listing scores.
pub open spec fn hit_scoring(name: Seq<char>, year: Option<u32>, exact: bool, hit: SearchHit) -> Scoring {
    scoring(
        name,
        year,
        exact,
        reading_of(
            group(regex_captures(HREF_ID_PATTERN@, hit.href@), 1),
            regex_captures(YEAR_TYPE_PATTERN@, hit.trailing_text@),
        ),
        hit.link_text@,
    )
}

/// The reading that a result of `read_candidate` or `parse_hit` stands for.
pub open spec fn reading_view(r: Result<Option<SearchCandidate>, Error>) -> Reading {
    match r {
        Ok(None) => Reading::Skipped,
        Ok(Some(c)) => Reading::Read(c.id, c.year, group_view(c.title_type)),
        Err(Error::ParseError(e)) => Reading::Unparsable(e@),
        Err(_) => Reading::Skipped,
    }
}

pub open spec fn cand_name_of(r: Result<Option<SearchCandidate>, Error>) -> Seq<char> {
    match r {
        Ok(Some(c)) => c.name@,
        _ => Seq::empty(),
    }
}

/// Scores a row once read: a number that did not read fails the resolution
/// with it, any other failure to read leaves the row out.
pub fn score_candidate(
    name: &str,
    year: Option<u32>,
    exact: bool,
    read: Result<Option<SearchCandidate>, Error>,
) -> (r: HitScore)
    ensures
        r@ == scoring(name@, year, exact, reading_view(read), cand_name_of(read)),
{
    match read {
        Ok(None) => HitScore::Skipped,
        Err(Error::ParseError(e)) => HitScore::Unparsable(e),
        Err(_) => HitScore::Skipped,
        Ok(Some(c)) => {
            if is_episodic(&c.title_type) {
                HitScore::Skipped
            } else {
                match year {
                    None => HitScore::Skipped,
                    Some(y) => {
                        let names_match = exact || same_title(name, c.name.as_str());
                        let l = candidate_loss(exact, names_match, y, c.year);
                        HitScore::Scored(l, c.id)
                    },
                }
            }
        },
    }
}

proof fn lemma_read_view(r: Result<Option<SearchCandidate>, Error>, v: Reading, name: Seq<char>)
    requires
        read_as(r, v, name),
    ensures
        reading_view(r) == v,
        v is Read ==> cand_name_of(r) == name,
{
}

/// Reads and scores a row of the search listing.
pub fn score_hit(name: &str, year: Option<u32>, exact: bool, hit: &SearchHit) -> (r: HitScore)
    ensures
        r@ == hit_scoring(name@, year, exact, *hit),
{
    let read = parse_hit(hit);
    proof {
        lemma_read_view(
            read,
            reading_of(
                group(regex_captures(HREF_ID_PATTERN@, hit.href@), 1),
                regex_captures(YEAR_TYPE_PATTERN@, hit.trailing_text@),
            ),
            hit.link_text@,
        );
    }
    score_candidate(name, year, exact, read)
}

/// The outcome of a resolution, as the contracts speak of it.
pub enum Resolution {
    /// The title id of the chosen candidate.
    Found(u32),
    /// A number of a row did not read as one.
    Unparsable(Seq<char>),
    /// No acceptable candidate; the best loss seen, if any.
    NotFound(Option<nat>),
}

pub open spec fn loss_view(l: Option<u64>) -> Option<nat> {
    match l {
        Some(x) => Some(x as nat),
        None => None,
    }
}

/// Whether `r` is the result that stands for the outcome `v`.
pub open spec fn resolved_as(r: Result<u32, Error>, v: Resolution) -> bool {
    match v {
        Resolution::Found(id) => r == Ok::<u32, Error>(id),
        Resolution::Unparsable(s) => r matches Err(Error::ParseError(e)) && e@ == s,
        Resolution::NotFound(l) => r matches Err(Error::NotFound(x)) && loss_view(x) == l,
    }
}

/// The outcome once every row is seen: the best candidate, unless there is
/// none or its loss is 4 or more.
pub open spec fn settle(best: Option<(nat, u32)>) -> Resolution {
    match best {
        None => Resolution::NotFound(None),
        Some((l, id)) => if l >= 4 {
            Resolution::NotFound(Some(l))
        } else {
            Resolution::Found(id)
        },
    }
}

/// The best candidate after one more: it replaces the best only with a
/// strictly smaller loss, so the first of equal losses stays.
pub open spec fn better(best: Option<(nat, u32)>, l: nat, id: u32) -> Option<(nat, u32)> {
    match best {
        Some((bl, _)) => if bl > l {
            Some((l, id))
        } else {
            best
        },
        None => Some((l, id)),
    }
}

/// Resolution over scored rows in listing order: a row that did not read
/// fails it, a loss of 0 ends it at once, and otherwise the best candidate
/// is settled at the end.
pub open spec fn pick(s: Seq<Scoring>, best: Option<(nat, u32)>) -> Resolution
    decreases s.len(),
{
    if s.len() == 0 {
        settle(best)
    } else {
        match s[0] {
            Scoring::Skipped => pick(s.drop_first(), best),
            Scoring::Unparsable(e) => Resolution::Unparsable(e),
            Scoring::Scored(l, id) => if l == 0 {
                Resolution::Found(id)
            } else {
                pick(s.drop_first(), better(best, l, id))
            },
        }
    }
}

pub open spec fn scores_view(v: Seq<HitScore>) -> Seq<Scoring> {
    v.map_values(|h: HitScore| h@)
}

/// Chooses the candidate that scored rows resolve to.
pub fn pick_best(scores: &Vec<HitScore>) -> (r: Result<u32, Error>)
    ensures
        resolved_as(r, pick(scores_view(scores@), None)),
{
    let ghost all = scores_view(scores@);
    let mut best: Option<(u64, u32)> = None;
    let mut i: usize = 0;
    assert(all.subrange(0, all.len() as int) =~= all);
    while i < scores.len()
        invariant
            i <= scores@.len(),
            all == scores_view(scores@),
            pick(all, None) == pick(all.subrange(i as int, all.len() as int), best_view(best)),
        decreases scores.len() - i,
    {
        let ghost rest = all.subrange(i as int, all.len() as int);
        assert(rest.drop_first() =~= all.subrange(i + 1, all.len() as int));
        assert(rest[0] == scores@[i as int]@);
        match &scores[i] {
            HitScore::Skipped => {},
            HitScore::Unparsable(e) => {
                return Err(Error::ParseError(e.clone()));
            },
            HitScore::Scored(l, id) => {
                if *l == 0 {
                    return Ok(*id);
                }
                match best {
                    Some((bl, _)) => {
                        if bl > *l {
                            best = Some((*l, *id));
                        }
                    },
                    None => {
                        best = Some((*l, *id));
                    },
                }
            },
        }
        i += 1;
    }
    match best {
        Some((l, id)) => if l >= 4 {
            Err(Error::NotFound(Some(l)))
        } else {
            Ok(id)
        },
        None => Err(Error::NotFound(None)),
    }
}

pub open spec fn best_view(b: Option<(u64, u32)>) -> Option<(nat, u32)> {
    match b {
        Some((l, id)) => Some((l as nat, id)),
        None => None,
    }
}

pub open spec fn hits_scoring(name: Seq<char>, year: Option<u32>, exact: bool, hits: Seq<SearchHit>) -> Seq<Scoring> {
    hits.map_values(|h: SearchHit| hit_scoring(name, year, exact, h))
}

fn search_impl(name: &str, year: Option<u32>, exact: bool, hits: &Vec<SearchHit>) -> (r: Result<u32, Error>)
    ensures
        resolved_as(r, pick(hits_scoring(name@, year, exact, hits@), None)),
{
    let mut scores: Vec<HitScore> = Vec::new();
    let mut i: usize = 0;
    while i < hits.len()
        invariant
            i <= hits@.len(),
            scores@.len() == i,
            forall|k: int| 0 <= k < i ==> #[trigger] scores@[k]@ == hit_scoring(name@, year, exact, hits@[k]),
        decreases hits.len() - i,
    {
        let s = score_hit(name, year, exact, &hits[i]);
        scores.push(s);
        i += 1;
    }
    assert(scores_view(scores@) =~= hits_scoring(name@, year, exact, hits@));
    pick_best(&scores)
}

/// Resolves a title against the rows of its search listing; a name that
/// differs from the searched one, trimmed and lower-cased, doubles the loss.
pub fn search(name: &str, year: Option<u32>, hits: &Vec<SearchHit>) -> (r: Result<u32, Error>)
    ensures
        resolved_as(r, pick(hits_scoring(name@, year, false, hits@), None)),
{
    search_impl(name, year, false, hits)
}

/// Resolves a title against the rows of a listing that the search engine
/// restricted to exact name matches; names are not compared again.
pub fn search_exact(name: &str, year: Option<u32>, hits: &Vec<SearchHit>) -> (r: Result<u32, Error>)
    ensures
        resolved_as(r, pick(hits_scoring(name@, year, true, hits@), None)),
{
    search_impl(name, year, true, hits)
}

/// Whether a scored row neither fails the resolution nor ends it at once.
pub open spec fn passes_on(x: Scoring) -> bool {
    match x {
        Scoring::Skipped => true,
        Scoring::Unparsable(_) => false,
        Scoring::Scored(l, _) => l > 0,
    }
}

/// The first candidate with loss 0 decides the resolution: whatever rows
/// follow it, their candidates have no influence on the result.
pub proof fn lemma_exact_match_wins(
    prefix: Seq<Scoring>,
    id: u32,
    rest: Seq<Scoring>,
    best: Option<(nat, u32)>,
)
    requires
        forall|k: int| 0 <= k < prefix.len() ==> passes_on(#[trigger] prefix[k]),
    ensures
        pick(prefix + seq![Scoring::Scored(0, id)] + rest, best) == Resolution::Found(id),
    decreases prefix.len(),
{
    let s = prefix + seq![Scoring::Scored(0, id)] + rest;
    if prefix.len() == 0 {
        assert(s[0] == Scoring::Scored(0, id));
    } else {
        let p2 = prefix.drop_first();
        assert(s.drop_first() =~= p2 + seq![Scoring::Scored(0, id)] + rest);
        assert(s[0] == prefix[0]);
        assert(passes_on(prefix[0]));
        assert forall|k: int| 0 <= k < p2.len() implies passes_on(#[trigger] p2[k]) by {
            assert(p2[k] == prefix[k + 1]);
        }
        match prefix[0] {
            Scoring::Scored(l, i) => lemma_exact_match_wins(p2, id, rest, better(best, l, i)),
            _ => lemma_exact_match_wins(p2, id, rest, best),
        }
    }
}

/// Whether every row of `s` passes on and every candidate's loss is at least `m`.
pub open spec fn losses_at_least(s: Seq<Scoring>, m: nat) -> bool {
    forall|j: int| 0 <= j < s.len() ==> passes_on(#[trigger] s[j]) && (s[j] matches Scoring::Scored(l, _) ==> l >= m)
}

proof fn lemma_pick_keeps_best(s: Seq<Scoring>, m: nat, id: u32)
    requires
        m > 0,
        losses_at_least(s, m),
    ensures
        pick(s, Some((m, id))) == settle(Some((m, id))),
    decreases s.len(),
{
    if s.len() > 0 {
        assert(passes_on(s[0]));
        let t = s.drop_first();
        assert forall|j: int| 0 <= j < t.len() implies passes_on(#[trigger] t[j]) && (t[j] matches Scoring::Scored(l, _) ==> l >= m) by {
            assert(t[j] == s[j + 1]);
        }
        lemma_pick_keeps_best(t, m, id);
    }
}

proof fn lemma_pick_reaches(s: Seq<Scoring>, k: int, m: nat, id: u32, best: Option<(nat, u32)>)
    requires
        0 <= k < s.len(),
        m > 0,
        s[k] == Scoring::Scored(m, id),
        losses_at_least(s, m),
        forall|j: int| 0 <= j < k ==> (#[trigger] s[j] matches Scoring::Scored(l, _) ==> l > m),
        best matches Some((bl, _)) ==> bl > m,
    ensures
        pick(s, best) == settle(Some((m, id))),
    decreases k,
{
    let t = s.drop_first();
    assert forall|j: int| 0 <= j < t.len() implies passes_on(#[trigger] t[j]) && (t[j] matches Scoring::Scored(l, _) ==> l >= m) by {
        assert(t[j] == s[j + 1]);
    }
    if k == 0 {
        lemma_pick_keeps_best(t, m, id);
    } else {
        assert(passes_on(s[0]));
        assert forall|j: int| 0 <= j < k - 1 implies (#[trigger] t[j] matches Scoring::Scored(l, _) ==> l > m) by {
            assert(t[j] == s[j + 1]);
        }
        match s[0] {
            Scoring::Scored(l, i) => lemma_pick_reaches(t, k - 1, m, id, better(best, l, i)),
            _ => lemma_pick_reaches(t, k - 1, m, id, best),
        }
    }
}

/// Where no row fails and no candidate has loss 0, the first candidate with
/// the smallest loss decides: a loss of 4 or more is `NotFound` with that
/// loss, a loss of 1 to 3 resolves to that candidate.
pub proof fn lemma_best_loss_decides(s: Seq<Scoring>, k: int, m: nat, id: u32)
    requires
        0 <= k < s.len(),
        s[k] == Scoring::Scored(m, id),
        m > 0,
        losses_at_least(s, m),
        forall|j: int| 0 <= j < k ==> (#[trigger] s[j] matches Scoring::Scored(l, _) ==> l > m),
    ensures
        m >= 4 ==> pick(s, None) == Resolution::NotFound(Some(m)),
        m < 4 ==> pick(s, None) == Resolution::Found(id),
{
    lemma_pick_reaches(s, k, m, id, None);
}

/// The pattern of the external-review link text that gives the number of critics.
pub const CRITICS_PATTERN: &'static str = "(\\d+) critic";

/// A heading of a title page: the text of its first child, if it has a first
/// child, and the texts of the links inside its parent, if it has a parent.
#[derive(Debug, Clone)]
pub struct PageHeading {
    pub label: Option<String>,
    pub parent_links: Option<Vec<String>>,
}

/// What the field readers take from a title page: its headings in document
/// order, and the first-child texts of the score badges and of the
/// external-review links (`None` for an element without children).
#[derive(Debug, Clone)]
pub struct TitlePage {
    pub headings: Vec<PageHeading>,
    pub metascore_texts: Vec<Option<String>>,
    pub critics_texts: Vec<Option<String>>,
}

/// Whether a heading opens the genre list: its text is exactly "Genres:",
/// and it has a parent to read the links from.
pub open spec fn is_genre_heading(h: PageHeading) -> bool {
    (h.label matches Some(t) && t@ == "Genres:"@) && h.parent_links is Some
}

/// The position of the first genre heading.
pub open spec fn first_genre_heading(hs: Seq<PageHeading>) -> Option<int>
    decreases hs.len(),
{
    if hs.len() == 0 {
        None
    } else if is_genre_heading(hs[0]) {
        Some(0)
    } else {
        match first_genre_heading(hs.drop_first()) {
            Some(k) => Some(k + 1),
            None => None,
        }
    }
}

/// The result of reading genre tokens, as the contracts speak of it.
pub enum GenreReading {
    Genres(Seq<Genre>),
    /// The first token, trimmed, that is not in the vocabulary.
    Unknown(Seq<char>),
}

/// Reads link texts as genres, each trimmed; the first unknown token fails
/// the whole list.
pub open spec fn read_tokens(ts: Seq<Seq<char>>) -> GenreReading
    decreases ts.len(),
{
    if ts.len() == 0 {
        GenreReading::Genres(Seq::empty())
    } else {
        match genre_of_token(trimmed(ts[0])) {
            None => GenreReading::Unknown(trimmed(ts[0])),
            Some(g) => match read_tokens(ts.drop_first()) {
                GenreReading::Genres(gs) => GenreReading::Genres(seq![g] + gs),
                other => other,
            },
        }
    }
}

pub open spec fn texts_view(v: Seq<String>) -> Seq<Seq<char>> {
    v.map_values(|s: String| s@)
}

/// Whether `r` is the result of reading the genre list from a page.
pub open spec fn genres_read_as(r: Result<Vec<Genre>, Error>, page: TitlePage) -> bool {
    match first_genre_heading(page.headings@) {
        None => r matches Err(Error::UnknownGenre(e)) && e@ == "no genre found"@,
        Some(k) => match read_tokens(texts_view(page.headings@[k].parent_links->0@)) {
            GenreReading::Genres(gs) => r matches Ok(v) && v@ == gs,
            GenreReading::Unknown(t) => r matches Err(Error::UnknownGenre(e)) && e@ == t,
        },
    }
}

fn read_genre_links(links: &Vec<String>) -> (r: Result<Vec<Genre>, Error>)
    ensures
        match read_tokens(texts_view(links@)) {
            GenreReading::Genres(gs) => r matches Ok(v) && v@ == gs,
            GenreReading::Unknown(t) => r matches Err(Error::UnknownGenre(e)) && e@ == t,
        },
{
    let ghost ts = texts_view(links@);
    let mut out: Vec<Genre> = Vec::new();
    let mut i: usize = 0;
    proof {
        assert(ts.subrange(0, ts.len() as int) =~= ts);
        if let GenreReading::Genres(gs) = read_tokens(ts) {
            assert(out@ + gs =~= gs);
        }
    }
    while i < links.len()
        invariant
            i <= links@.len(),
            ts == texts_view(links@),
            read_tokens(ts) == (match read_tokens(ts.subrange(i as int, ts.len() as int)) {
                GenreReading::Genres(gs) => GenreReading::Genres(out@ + gs),
                other => other,
            }),
        decreases links.len() - i,
    {
        let ghost rest = ts.subrange(i as int, ts.len() as int);
        assert(rest.drop_first() =~= ts.subrange(i + 1, ts.len() as int));
        assert(rest[0] == links@[i as int]@);
        let token = trim_text(links[i].as_str());
        match Genre::from_text(token.as_str()) {
            Ok(g) => {
                proof {
                    let tail = read_tokens(rest.drop_first());
                    if let GenreReading::Genres(gs) = tail {
                        assert(out@.push(g) + gs =~= out@ + (seq![g] + gs));
                    }
                }
                out.push(g);
            },
            Err(e) => {
                return Err(e);
            },
        }
        i += 1;
    }
    proof {
        assert(ts.subrange(i as int, ts.len() as int) =~= Seq::<Seq<char>>::empty());
        assert(out@ + Seq::<Genre>::empty() =~= out@);
    }
    Ok(out)
}

/// The genres of a page, where its genre list reads.
pub open spec fn page_genres(page: TitlePage) -> Option<Seq<Genre>> {
    match first_genre_heading(page.headings@) {
        None => None,
        Some(k) => match read_tokens(texts_view(page.headings@[k].parent_links->0@)) {
            GenreReading::Genres(gs) => Some(gs),
            GenreReading::Unknown(_) => None,
        },
    }
}

/// Reads the genre list of a title page: the links beside the first
/// "Genres:" heading, each a token of the vocabulary.
pub fn get_genres(document: &TitlePage) -> (r: Result<Vec<Genre>, Error>)
    ensures
        genres_read_as(r, *document),
        r is Ok <==> page_genres(*document) is Some,
        r matches Ok(v) ==> v@ == page_genres(*document)->0,
{
    let ghost hs = document.headings@;
    let mut i: usize = 0;
    assert(hs.subrange(0, hs.len() as int) =~= hs);
    while i < document.headings.len()
        invariant
            i <= hs.len(),
            hs == document.headings@,
            forall|j: int| 0 <= j < i ==> !is_genre_heading(#[trigger] hs[j]),
            first_genre_heading(hs) == (match first_genre_heading(hs.subrange(i as int, hs.len() as int)) {
                Some(k) => Some(k + i),
                None => None,
            }),
        decreases hs.len() - i,
    {
        let ghost rest = hs.subrange(i as int, hs.len() as int);
        assert(rest.drop_first() =~= hs.subrange(i + 1, hs.len() as int));
        let h = &document.headings[i];
        let labelled = match &h.label {
            Some(t) => same_text(t.as_str(), "Genres:"),
            None => false,
        };
        if labelled {
            if let Some(links) = &h.parent_links {
                return read_genre_links(links);
            }
        }
        i += 1;
    }
    assert(hs.subrange(i as int, hs.len() as int) =~= Seq::<PageHeading>::empty());
    Err(Error::UnknownGenre("no genre found".to_owned()))
}

/// The first text among `ts`.
pub open spec fn first_text(ts: Seq<Option<String>>) -> Option<Seq<char>>
    decreases ts.len(),
{
    if ts.len() == 0 {
        None
    } else {
        match ts[0] {
            Some(t) => Some(t@),
            None => first_text(ts.drop_first()),
        }
    }
}

fn find_first_text(ts: &Vec<Option<String>>) -> (r: Option<String>)
    ensures
        group_view(r) == first_text(ts@),
{
    let mut i: usize = 0;
    assert(ts@.subrange(0, ts@.len() as int) =~= ts@);
    while i < ts.len()
        invariant
            i <= ts@.len(),
            first_text(ts@) == first_text(ts@.subrange(i as int, ts@.len() as int)),
        decreases ts.len() - i,
    {
        let ghost rest = ts@.subrange(i as int, ts@.len() as int);
        assert(rest.drop_first() =~= ts@.subrange(i + 1, ts@.len() as int));
        if let Some(t) = &ts[i] {
            return Some(t.clone());
        }
        i += 1;
    }
    None
}

/// Whether `r` is the score read from a page: the first badge text as a
/// number from 0 to 100.
pub open spec fn metascore_read_as(r: Result<u8, Error>, page: TitlePage) -> bool {
    match first_text(page.metascore_texts@) {
        None => r matches Err(Error::Generic(e)) && e@ == "missing metacritic score"@,
        Some(t) => match parsed_unsigned(t, 100) {
            Some(n) => r == Ok::<u8, Error>(n as u8),
            None => r matches Err(Error::ParseError(e)) && e@ == t,
        },
    }
}

/// The score of a page, where it reads.
pub open spec fn page_metascore(page: TitlePage) -> Option<u8> {
    match first_text(page.metascore_texts@) {
        None => None,
        Some(t) => match parsed_unsigned(t, 100) {
            Some(n) => Some(n as u8),
            None => None,
        },
    }
}

/// Reads the aggregate score of a title page from its first score badge.
pub fn get_metascore(document: &TitlePage) -> (r: Result<u8, Error>)
    ensures
        metascore_read_as(r, *document),
        r matches Ok(n) ==> page_metascore(*document) == Some(n),
        r is Err ==> page_metascore(*document) is None,
{
    match find_first_text(&document.metascore_texts) {
        None => Err(Error::Generic("missing metacritic score".to_owned())),
        Some(t) => {
            let v = chars_of(t.as_str());
            match parse_unsigned(&v, 100) {
                Some(n) => Ok(n as u8),
                None => Err(Error::ParseError(t)),
            }
        },
    }
}

/// Whether `r` is the number of critics read from a review-link text, given
/// the groups of `CRITICS_PATTERN` in it.
pub open spec fn critics_read_as(r: Result<u32, Error>, text: Seq<char>, caps: Option<Seq<Option<Seq<char>>>>) -> bool {
    match group(caps, 1) {
        None => r matches Err(Error::ParseError(e)) && e@ == text,
        Some(d) => match parsed_unsigned(d, u32::MAX as nat) {
            Some(n) => r == Ok::<u32, Error>(n as u32),
            None => r matches Err(Error::ParseError(e)) && e@ == d,
        },
    }
}

/// The number of critics from a review-link text and the groups that
/// `CRITICS_PATTERN` matched in it.
pub fn critics_from_captures(text: &String, caps: &Option<Vec<Option<String>>>) -> (r: Result<u32, Error>)
    ensures
        critics_read_as(r, text@, captures_view(*caps)),
{
    match get_group(caps, 1) {
        None => Err(Error::ParseError(text.clone())),
        Some(d) => {
            let v = chars_of(d.as_str());
            match parse_unsigned(&v, u32::MAX) {
                Some(n) => Ok(n),
                None => Err(Error::ParseError(d)),
            }
        },
    }
}

/// Whether `r` is the number of critics read from a page.
pub open spec fn critics_number_read_as(r: Result<u32, Error>, page: TitlePage) -> bool {
    match first_text(page.critics_texts@) {
        None => r matches Err(Error::Generic(e)) && e@ == "missing critics number"@,
        Some(t) => critics_read_as(r, t, regex_captures(CRITICS_PATTERN@, t)),
    }
}

/// The number of critics of a page, where it reads.
pub open spec fn page_critics(page: TitlePage) -> Option<u32> {
    match first_text(page.critics_texts@) {
        None => None,
        Some(t) => match group(regex_captures(CRITICS_PATTERN@, t), 1) {
            None => None,
            Some(d) => match parsed_unsigned(d, u32::MAX as nat) {
                Some(n) => Some(n as u32),
                None => None,
            },
        },
    }
}

/// Reads the number of critics of a title page from its first external-review link.
pub fn get_critics_number(document: &TitlePage) -> (r: Result<u32, Error>)
    ensures
        critics_number_read_as(r, *document),
        r matches Ok(n) ==> page_critics(*document) == Some(n),
        r is Err ==> page_critics(*document) is None,
{
    match find_first_text(&document.critics_texts) {
        None => Err(Error::Generic("missing critics number".to_owned())),
        Some(t) => {
            let caps = captures(CRITICS_PATTERN, t.as_str());
            critics_from_captures(&t, &caps)
        },
    }
}

/// A genre list with one token outside the vocabulary, wherever it stands,
/// is no genre list at all: reading it fails as a whole.
pub proof fn lemma_unknown_token_fails(ts: Seq<Seq<char>>, k: int)
    requires
        0 <= k < ts.len(),
        genre_of_token(trimmed(ts[k])) is None,
    ensures
        read_tokens(ts) is Unknown,
    decreases k,
{
    if k > 0 && genre_of_token(trimmed(ts[0])) is Some {
        let t = ts.drop_first();
        assert(t[k - 1] == ts[k]);
        lemma_unknown_token_fails(t, k - 1);
    }
}

/// `s` padded on the left with zeros to at least `w` characters.
pub open spec fn zero_padded(s: Seq<char>, w: nat) -> Seq<char> {
    if s.len() >= w {
        s
    } else {
        Seq::new((w - s.len()) as nat, |i: int| '0') + s
    }
}

/// The address of a title page.
pub open spec fn title_url(id: u32) -> Seq<char> {
    "https://www.imdb.com/title/tt"@ + zero_padded(decimal_digits(id as nat), 7)
}

/// The address of the title page of `id`, its number padded to seven digits.
pub fn get_url(id: u32) -> (r: String)
    ensures
        r@ == title_url(id),
{
    let mut digits: Vec<char> = Vec::new();
    push_decimal(&mut digits, id as u64);
    assert(digits@ =~= decimal_digits(id as nat));
    let mut out = chars_of("https://www.imdb.com/title/tt");
    let ghost base = out@;
    let mut k: usize = digits.len();
    while k < 7
        invariant
            digits@ == decimal_digits(id as nat),
            digits@.len() <= k <= 7 || (k == digits@.len() && k >= 7),
            out@ == base + Seq::new((k - digits@.len()) as nat, |i: int| '0'),
        decreases 7 - k,
    {
        out.push('0');
        k += 1;
        assert(out@ =~= base + Seq::new((k - digits@.len()) as nat, |i: int| '0'));
    }
    let n = digits.len();
    append_chars(&mut out, &digits, 0, n);
    proof {
        assert(digits@.subrange(0, n as int) =~= digits@);
        if digits@.len() >= 7 {
            assert(out@ =~= title_url(id));
        } else {
            assert(out@ =~= title_url(id));
        }
    }
    string_from_chars(&out)
}

/// The address of the search endpoint.
pub const SEARCH_BASE_URL: &'static str = "https://www.imdb.com/find";

/// The address that parsing `base` and appending the form-encoded `pairs` to
/// its query gives, where `base` parses as an absolute address.
pub uninterp spec fn url_with_query(base: Seq<char>, pairs: Seq<(Seq<char>, Seq<char>)>) -> Option<Seq<char>>;

pub open spec fn pairs_view(v: Seq<(String, String)>) -> Seq<(Seq<char>, Seq<char>)> {
    v.map_values(|p: (String, String)| (p.0@, p.1@))
}

/// Relies on `reqwest::Url::parse_with_params` (the `url` crate's `Url`): the
/// base parsed and the pairs appended, form-encoded, to its query; `None`
/// where the base is no absolute address.
#[verifier::external_body]
fn url_with_params(base: &str, pairs: &Vec<(String, String)>) -> (r: Option<String>)
    ensures
        group_view(r) == url_with_query(base@, pairs_view(pairs@)),
{
    reqwest::Url::parse_with_params(base, pairs.iter().map(|(k, v)| (k.as_str(), v.as_str())))
        .ok()
        .map(|u| u.to_string())
}

/// The query of a title search: the name, the title filter, and whether the
/// engine must match the name exactly.
pub open spec fn search_pairs(name: Seq<char>, exact: bool) -> Seq<(Seq<char>, Seq<char>)> {
    seq![("q"@, name), ("s"@, "tt"@), ("exact"@, if exact { "true"@ } else { "false"@ })]
}

/// The address of the search listing for a name.
pub fn search_url(name: &str, exact: bool) -> (r: Result<String, Error>)
    ensures
        match url_with_query(SEARCH_BASE_URL@, search_pairs(name@, exact)) {
            Some(u) => r matches Ok(s) && s@ == u,
            None => r matches Err(Error::ParseError(e)) && e@ == SEARCH_BASE_URL@,
        },
{
    let mut pairs: Vec<(String, String)> = Vec::new();
    pairs.push(("q".to_owned(), name.to_owned()));
    pairs.push(("s".to_owned(), "tt".to_owned()));
    pairs.push(("exact".to_owned(), if exact { "true".to_owned() } else { "false".to_owned() }));
    assert(pairs_view(pairs@) =~= search_pairs(name@, exact));
    match url_with_params(SEARCH_BASE_URL, &pairs) {
        Some(u) => Ok(u),
        None => Err(Error::ParseError(SEARCH_BASE_URL.to_owned())),
    }
}

/// On a page whose genre list is the one beside its first "Genres:"
/// heading, one token outside the vocabulary anywhere in that list leaves the
/// page with no genres at all: `get_genres` fails on it.
pub proof fn lemma_unknown_genre_fails_page(page: TitlePage, k: int, j: int)
    requires
        first_genre_heading(page.headings@) == Some(k),
        0 <= j < page.headings@[k].parent_links->0@.len(),
        genre_of_token(trimmed(page.headings@[k].parent_links->0@[j]@)) is None,
    ensures
        page_genres(page) is None,
{
    let ts = texts_view(page.headings@[k].parent_links->0@);
    assert(ts[j] == page.headings@[k].parent_links->0@[j]@);
    lemma_unknown_token_fails(ts, j);
}

/// The rows of a listing scored against a search, up to and including the
/// first row with loss 0, decide it: that row's id is the result, whatever
/// rows follow.
pub proof fn lemma_search_stops_at_exact_match(
    name: Seq<char>,
    year: Option<u32>,
    exact: bool,
    hits1: Seq<SearchHit>,
    hits2: Seq<SearchHit>,
    k: int,
    id: u32,
)
    requires
        0 <= k < hits1.len(),
        k < hits2.len(),
        hits1.subrange(0, k + 1) == hits2.subrange(0, k + 1),
        hit_scoring(name, year, exact, hits1[k]) == Scoring::Scored(0, id),
        forall|j: int| 0 <= j < k ==> passes_on(#[trigger] hit_scoring(name, year, exact, hits1[j])),
    ensures
        pick(hits_scoring(name, year, exact, hits1), None) == Resolution::Found(id),
        pick(hits_scoring(name, year, exact, hits2), None) == Resolution::Found(id),
{
    let s1 = hits_scoring(name, year, exact, hits1);
    let s2 = hits_scoring(name, year, exact, hits2);
    let prefix = s1.subrange(0, k);
    assert forall|j: int| 0 <= j < k implies passes_on(#[trigger] prefix[j]) by {
        assert(prefix[j] == hit_scoring(name, year, exact, hits1[j]));
    }
    assert forall|j: int| 0 <= j <= k implies s2[j] == s1[j] by {
        assert(hits1.subrange(0, k + 1)[j] == hits1[j]);
        assert(hits2.subrange(0, k + 1)[j] == hits2[j]);
        assert(hits1[j] == hits2[j]);
        assert(s1[j] == hit_scoring(name, year, exact, hits1[j]));
        assert(s2[j] == hit_scoring(name, year, exact, hits2[j]));
    }
    assert(s1 =~= prefix + seq![Scoring::Scored(0, id)] + s1.subrange(k + 1, s1.len() as int));
    assert(s2 =~= prefix + seq![Scoring::Scored(0, id)] + s2.subrange(k + 1, s2.len() as int));
    lemma_exact_match_wins(prefix, id, s1.subrange(k + 1, s1.len() as int), None);
    lemma_exact_match_wins(prefix, id, s2.subrange(k + 1, s2.len() as int), None);
}

/// Over a listing where no row fails and no row has loss 0, the search gives
/// the first row with the smallest loss where that loss is 1 to 3, and
/// `NotFound` with that loss where it is 4 or more.
pub proof fn lemma_search_best_loss(
    name: Seq<char>,
    year: Option<u32>,
    exact: bool,
    hits: Seq<SearchHit>,
    k: int,
    m: nat,
    id: u32,
)
    requires
        0 <= k < hits.len(),
        m > 0,
        hit_scoring(name, year, exact, hits[k]) == Scoring::Scored(m, id),
        losses_at_least(hits_scoring(name, year, exact, hits), m),
        forall|j: int| 0 <= j < k ==> (#[trigger] hit_scoring(name, year, exact, hits[j]) matches Scoring::Scored(l, _) ==> l > m),
    ensures
        m >= 4 ==> pick(hits_scoring(name, year, exact, hits), None) == Resolution::NotFound(Some(m)),
        m < 4 ==> pick(hits_scoring(name, year, exact, hits), None) == Resolution::Found(id),
{
    let s = hits_scoring(name, year, exact, hits);
    assert forall|j: int| 0 <= j < k implies (#[trigger] s[j] matches Scoring::Scored(l, _) ==> l > m) by {
        assert(s[j] == hit_scoring(name, year, exact, hits[j]));
    }
    lemma_best_loss_decides(s, k, m, id);
}

} // verus!
