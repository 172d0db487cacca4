//! Normalisation of raw catalog titles into a name and a release year.
use vstd::prelude::*;

use crate::text::{
    append_chars, chars_of, is_white_space, is_whitespace, lower_of, parse_unsigned,
    parsed_unsigned, same_text, slice_chars, string_from_chars, to_lower, trim_bounds, trim_end,
    trim_start, trimmed,
};

verus! {

/// Where the left-to-right scan of a raw title stands.
pub struct ScanState {
    /// The characters kept for the name so far.
    pub name: Seq<char>,
    /// The characters of the parenthetical group being read.
    pub buf: Seq<char>,
    /// Whether the scan is inside a parenthetical group.
    pub inside: bool,
    /// The year, once a group has held a number; the scan stops there.
    pub year: Option<u32>,
}

pub open spec fn scan_start() -> ScanState {
    ScanState { name: Seq::empty(), buf: Seq::empty(), inside: false, year: None }
}

/// Whether the last character of `s` is white space.
pub open spec fn ends_in_ws(s: Seq<char>) -> bool {
    s.len() > 0 && is_white_space(s.last())
}

/// One character of the scan. Outside parentheses characters go to the
/// name; a `(` opens a group, and a `)` that closes none is dropped; at the
/// `)` of a group, a group that reads as a number becomes the year, and any
/// other group is dropped. White space right after kept white space (in the
/// name, or in the group being read) is dropped, and white space kept in the
/// name is kept as a plain space, so each run becomes one space.
pub open spec fn scan_step(st: ScanState, c: char) -> ScanState {
    if st.inside {
        if c == ')' {
            match parsed_unsigned(st.buf, u32::MAX as nat) {
                Some(n) => ScanState { year: Some(n as u32), ..st },
                None => ScanState { inside: false, buf: Seq::empty(), ..st },
            }
        } else if is_white_space(c) && ends_in_ws(st.buf) {
            st
        } else {
            ScanState { buf: st.buf.push(c), ..st }
        }
    } else if c == '(' {
        ScanState { inside: true, ..st }
    } else if c == ')' {
        st
    } else if is_white_space(c) && ends_in_ws(st.name) {
        st
    } else {
        ScanState { name: st.name.push(if is_white_space(c) { ' ' } else { c }), ..st }
    }
}

/// The scan after the first `i` characters of `s`.
pub open spec fn scan_prefix(s: Seq<char>, i: nat) -> ScanState
    decreases i,
{
    if i == 0 || i > s.len() {
        scan_start()
    } else {
        let st = scan_prefix(s, (i - 1) as nat);
        if st.year is Some {
            st
        } else {
            scan_step(st, s[i - 1])
        }
    }
}

/// The scan of the whole of `s`.
pub open spec fn scanned(s: Seq<char>) -> ScanState {
    scan_prefix(s, s.len())
}

/// The position of the last comma of `s`.
pub open spec fn last_comma(s: Seq<char>) -> Option<int>
    decreases s.len(),
{
    if s.len() == 0 {
        None
    } else if s.last() == ',' {
        Some(s.len() - 1)
    } else {
        last_comma(s.drop_last())
    }
}

/// The sort articles that a title may carry at its end.
pub open spec fn is_article(t: Seq<char>) -> bool {
    t == "a"@ || t == "an"@ || t == "the"@ || t == "le"@ || t == "les"@
}

/// What stands before the comma at `p`, trimmed.
pub open spec fn comma_head(n: Seq<char>, p: int) -> Seq<char> {
    trimmed(n.subrange(0, p))
}

/// What stands after the comma at `p`, trimmed.
pub open spec fn comma_tail(n: Seq<char>, p: int) -> Seq<char> {
    trimmed(n.subrange(p + 1, n.len() as int))
}

/// Whether `n` ends in a comma and a sort article.
pub open spec fn article_clause(n: Seq<char>) -> bool {
    match last_comma(n) {
        Some(p) => is_article(lower_of(comma_tail(n, p))),
        None => false,
    }
}

/// The scanned name trimmed, with a trailing sort article moved to the front.
pub open spec fn arranged_name(n: Seq<char>) -> Seq<char> {
    arranged_with(n, lower_of(last_tail(n)))
}

/// What stands after the last comma of `n`, trimmed; empty where `n` has no comma.
pub open spec fn last_tail(n: Seq<char>) -> Seq<char> {
    match last_comma(n) {
        Some(p) => comma_tail(n, p),
        None => Seq::empty(),
    }
}

/// The name `n` trimmed, or, where the lower-cased tail after its last comma
/// is a sort article, that tail, a space, and what stands before the comma.
pub open spec fn arranged_with(n: Seq<char>, lowered_tail: Seq<char>) -> Seq<char> {
    match last_comma(n) {
        Some(p) => if is_article(lowered_tail) {
            comma_tail(n, p) + seq![' '] + comma_head(n, p)
        } else {
            trimmed(n)
        },
        None => trimmed(n),
    }
}

/// The name that normalisation gives for a raw title.
pub open spec fn normalized_name(raw: Seq<char>) -> Seq<char> {
    arranged_name(scanned(raw).name)
}

/// The year that normalisation gives for a raw title.
pub open spec fn normalized_year(raw: Seq<char>) -> Option<u32> {
    scanned(raw).year
}

proof fn lemma_last_comma(s: Seq<char>)
    ensures
        last_comma(s) matches Some(p) ==> 0 <= p < s.len() && s[p] == ',',
    decreases s.len(),
{
    if s.len() > 0 && s.last() != ',' {
        lemma_last_comma(s.drop_last());
    }
}

/// Once a year is found the scan takes no more characters.
proof fn lemma_scan_stops(s: Seq<char>, i: nat, j: nat)
    requires
        i <= j <= s.len(),
        scan_prefix(s, i).year is Some,
    ensures
        scan_prefix(s, j) == scan_prefix(s, i),
    decreases j,
{
    if j > i {
        lemma_scan_stops(s, i, (j - 1) as nat);
    }
}

fn last_comma_index(v: &Vec<char>) -> (r: Option<usize>)
    ensures
        match last_comma(v@) {
            Some(p) => r == Some(p as usize),
            None => r is None,
        },
{
    let mut j = v.len();
    assert(v@.subrange(0, j as int) =~= v@);
    while j > 0
        invariant
            j <= v@.len(),
            last_comma(v@) == last_comma(v@.subrange(0, j as int)),
        decreases j,
    {
        let ghost t = v@.subrange(0, j as int);
        if v[j - 1] == ',' {
            return Some(j - 1);
        }
        assert(t.drop_last() =~= v@.subrange(0, j - 1));
        j -= 1;
    }
    None
}

/// Whether a text is one of the sort articles "a", "an", "the", "le" and "les".
pub fn is_article_text(s: &str) -> (r: bool)
    ensures
        r == is_article(s@),
{
    same_text(s, "a") || same_text(s, "an") || same_text(s, "the") || same_text(s, "le")
        || same_text(s, "les")
}

/// What stands after the last comma of a name, trimmed; empty where the name
/// has no comma.
pub fn comma_tail_text(name: &Vec<char>) -> (r: String)
    ensures
        r@ == last_tail(name@),
{
    proof {
        lemma_last_comma(name@);
    }
    let n = name.len();
    match last_comma_index(name) {
        Some(p) => {
            let (t0, t1) = trim_bounds(name, p + 1, n);
            let tail = slice_chars(name, t0, t1);
            string_from_chars(&tail)
        },
        None => String::new(),
    }
}

/// Arranges a scanned name, given the tail after its last comma, trimmed and
/// lower-cased: a trailing sort article moves to the front, and otherwise the
/// name is only trimmed.
pub fn arrange_name(name: &Vec<char>, lowered_tail: &str) -> (r: String)
    ensures
        r@ == arranged_with(name@, lowered_tail@),
{
    let n = name.len();
    proof {
        lemma_last_comma(name@);
    }
    let processed = match last_comma_index(name) {
        Some(p) => {
            if is_article_text(lowered_tail) {
                let (t0, t1) = trim_bounds(name, p + 1, n);
                let mut out = slice_chars(name, t0, t1);
                let (h0, h1) = trim_bounds(name, 0, p);
                out.push(' ');
                append_chars(&mut out, name, h0, h1);
                out
            } else {
                let (a, b) = trim_bounds(name, 0, n);
                slice_chars(name, a, b)
            }
        },
        None => {
            let (a, b) = trim_bounds(name, 0, n);
            slice_chars(name, a, b)
        },
    };
    assert(name@.subrange(0, n as int) =~= name@);
    string_from_chars(&processed)
}

/// Splits a raw catalog title into a normalised name and, where a
/// parenthetical group holds a number, the release year.
pub fn extract_name_and_year(raw_name: &str) -> (r: (String, Option<u32>))
    ensures
        r.0@ == normalized_name(raw_name@),
        r.1 == normalized_year(raw_name@),
        lacks(r.0@, '('),
        lacks(r.0@, ')'),
        collapsed(r.0@),
        plain_spaces(r.0@),
{
    let cs = chars_of(raw_name);
    let mut name: Vec<char> = Vec::new();
    let mut buf: Vec<char> = Vec::new();
    let mut inside = false;
    let mut year: Option<u32> = None;
    let mut i: usize = 0;
    while i < cs.len() && year.is_none()
        invariant
            i <= cs@.len(),
            cs@ == raw_name@,
            scan_prefix(cs@, i as nat) == (ScanState { name: name@, buf: buf@, inside, year }),
        decreases cs.len() - i,
    {
        let c = cs[i];
        let ws = is_whitespace(c);
        if inside {
            if c == ')' {
                match parse_unsigned(&buf, u32::MAX) {
                    Some(n) => {
                        year = Some(n);
                    },
                    None => {
                        inside = false;
                        buf = Vec::new();
                    },
                }
            } else if ws && buf.len() > 0 && is_whitespace(buf[buf.len() - 1]) {
            } else {
                buf.push(c);
            }
        } else if c == '(' {
            inside = true;
        } else if c == ')' {
        } else if ws && name.len() > 0 && is_whitespace(name[name.len() - 1]) {
        } else if ws {
            name.push(' ');
        } else {
            name.push(c);
        }
        i += 1;
    }
    proof {
        if i < cs@.len() {
            lemma_scan_stops(cs@, i as nat, cs@.len());
        }
    }
    assert(name@ == scanned(raw_name@).name);
    let tail = comma_tail_text(&name);
    let low = to_lower(tail.as_str());
    let processed = arrange_name(&name, low.as_str());
    proof {
        lemma_no_unmatched_parenthesis(raw_name@);
    }
    (processed, year)
}

/// Whether `c` does not occur in `s`.
pub open spec fn lacks(s: Seq<char>, c: char) -> bool {
    forall|i: int| 0 <= i < s.len() ==> s[i] != c
}

/// Whether no two white-space characters of `s` stand side by side.
pub open spec fn collapsed(s: Seq<char>) -> bool {
    forall|i: int| 0 < i < s.len() ==> !(is_white_space(#[trigger] s[i - 1]) && is_white_space(s[i]))
}

/// Whether the only white space in `s` is the plain space.
pub open spec fn plain_spaces(s: Seq<char>) -> bool {
    forall|i: int| 0 <= i < s.len() && is_white_space(#[trigger] s[i]) ==> s[i] == ' '
}

/// Whether `s` holds no parenthesis, no white space but plain spaces, and no
/// two of those side by side.
pub open spec fn clean(s: Seq<char>) -> bool {
    lacks(s, '(') && lacks(s, ')') && collapsed(s) && plain_spaces(s)
}

proof fn lemma_sub_clean(s: Seq<char>, a: int, b: int)
    requires
        0 <= a <= b <= s.len(),
        clean(s),
    ensures
        clean(s.subrange(a, b)),
{
    let t = s.subrange(a, b);
    assert forall|i: int| 0 <= i < t.len() implies t[i] != '(' && t[i] != ')' && (is_white_space(t[i]) ==> t[i] == ' ') by {
        assert(t[i] == s[a + i]);
    }
    assert forall|i: int| 0 < i < t.len() implies !(is_white_space(#[trigger] t[i - 1]) && is_white_space(t[i])) by {
        assert(t[i - 1] == s[a + i - 1]);
        assert(t[i] == s[a + i]);
    }
}

proof fn lemma_trim_start_shape(s: Seq<char>) -> (a: int)
    ensures
        0 <= a <= s.len(),
        trim_start(s) == s.subrange(a, s.len() as int),
        a < s.len() ==> !is_white_space(s[a]),
    decreases s.len(),
{
    if s.len() > 0 && is_white_space(s[0]) {
        let a1 = lemma_trim_start_shape(s.drop_first());
        assert(s.drop_first().subrange(a1, s.len() - 1) =~= s.subrange(a1 + 1, s.len() as int));
        assert(a1 < s.len() - 1 ==> s.drop_first()[a1] == s[a1 + 1]);
        a1 + 1
    } else {
        assert(s.subrange(0, s.len() as int) =~= s);
        0
    }
}

proof fn lemma_trim_end_shape(s: Seq<char>) -> (b: int)
    ensures
        0 <= b <= s.len(),
        trim_end(s) == s.subrange(0, b),
        b > 0 ==> !is_white_space(s[b - 1]),
    decreases s.len(),
{
    if s.len() > 0 && is_white_space(s.last()) {
        let b1 = lemma_trim_end_shape(s.drop_last());
        assert(s.drop_last().subrange(0, b1) =~= s.subrange(0, b1));
        assert(b1 > 0 ==> s.drop_last()[b1 - 1] == s[b1 - 1]);
        b1
    } else {
        assert(s.subrange(0, s.len() as int) =~= s);
        s.len() as int
    }
}

/// `trimmed(s)` is a run of `s` that neither starts nor ends in white space.
proof fn lemma_trimmed_shape(s: Seq<char>) -> (r: (int, int))
    ensures
        0 <= r.0 <= r.1 <= s.len(),
        trimmed(s) == s.subrange(r.0, r.1),
        r.0 < r.1 ==> !is_white_space(s[r.0]) && !is_white_space(s[r.1 - 1]),
{
    let a = lemma_trim_start_shape(s);
    let t = s.subrange(a, s.len() as int);
    let b = lemma_trim_end_shape(t);
    assert(t.subrange(0, b) =~= s.subrange(a, a + b));
    if b > 0 {
        assert(t[0] == s[a]);
        assert(t[b - 1] == s[a + b - 1]);
    }
    (a, a + b)
}

proof fn lemma_scan_clean(raw: Seq<char>, i: nat)
    requires
        i <= raw.len(),
    ensures
        clean(scan_prefix(raw, i).name),
    decreases i,
{
    if i > 0 {
        lemma_scan_clean(raw, (i - 1) as nat);
        let st = scan_prefix(raw, (i - 1) as nat);
        let c = raw[i - 1];
        let c2 = if is_white_space(c) { ' ' } else { c };
        let n2 = st.name.push(c2);
        if !st.inside && st.year is None && c != '(' && c != ')' && !(is_white_space(c) && ends_in_ws(st.name)) {
            assert forall|k: int| 0 <= k < n2.len() implies n2[k] != '(' && n2[k] != ')' && (is_white_space(n2[k]) ==> n2[k] == ' ') by {
                if k < st.name.len() {
                    assert(n2[k] == st.name[k]);
                }
            }
            assert forall|k: int| 0 < k < n2.len() implies !(is_white_space(#[trigger] n2[k - 1]) && is_white_space(n2[k])) by {
                assert(n2[k - 1] == st.name[k - 1]);
                if k < st.name.len() {
                    assert(n2[k] == st.name[k]);
                }
            }
        }
    }
}

proof fn lemma_arranged_clean(n: Seq<char>)
    requires
        clean(n),
    ensures
        clean(arranged_name(n)),
{
    let r = lemma_trimmed_shape(n);
    lemma_sub_clean(n, r.0, r.1);
    lemma_last_comma(n);
    if let Some(p) = last_comma(n) {
        let h = n.subrange(0, p);
        let tl = n.subrange(p + 1, n.len() as int);
        lemma_sub_clean(n, 0, p);
        lemma_sub_clean(n, p + 1, n.len() as int);
        let rh = lemma_trimmed_shape(h);
        let rt = lemma_trimmed_shape(tl);
        lemma_sub_clean(h, rh.0, rh.1);
        lemma_sub_clean(tl, rt.0, rt.1);
        let head = comma_head(n, p);
        let tail = comma_tail(n, p);
        let t = tail + seq![' '] + head;
        if head.len() > 0 {
            assert(head[0] == h[rh.0]);
        }
        if tail.len() > 0 {
            assert(tail[tail.len() - 1] == tl[rt.1 - 1]);
        }
        assert forall|i: int| 0 <= i < t.len() implies t[i] != '(' && t[i] != ')' && (is_white_space(t[i]) ==> t[i] == ' ') by {
            if i < tail.len() {
                assert(t[i] == tail[i]);
            } else if i > tail.len() {
                assert(t[i] == head[i - tail.len() - 1]);
            }
        }
        assert forall|i: int| 0 < i < t.len() implies !(is_white_space(#[trigger] t[i - 1]) && is_white_space(t[i])) by {
            if i < tail.len() {
                assert(t[i - 1] == tail[i - 1]);
                assert(t[i] == tail[i]);
                assert(!(is_white_space(tail[i - 1]) && is_white_space(tail[i])));
            } else if i == tail.len() {
                assert(t[i - 1] == tail[i - 1]);
                assert(tail[tail.len() - 1] == tl[rt.1 - 1]);
                assert(!is_white_space(t[i - 1]));
            } else if i == tail.len() + 1 {
                assert(t[i] == head[0]);
                assert(head[0] == h[rh.0]);
                assert(!is_white_space(t[i]));
            } else {
                let k = i - tail.len() - 1;
                assert(t[i - 1] == head[k - 1]);
                assert(t[i] == head[k]);
                assert(!(is_white_space(head[k - 1]) && is_white_space(head[k])));
            }
        }
    }
}

/// Normalisation is total, and the name it gives holds no parenthesis at
/// all, so no unmatched one; its white space is single plain spaces.
pub proof fn lemma_no_unmatched_parenthesis(raw: Seq<char>)
    ensures
        lacks(normalized_name(raw), '('),
        lacks(normalized_name(raw), ')'),
        collapsed(normalized_name(raw)),
        plain_spaces(normalized_name(raw)),
{
    lemma_scan_clean(raw, raw.len());
    lemma_arranged_clean(scanned(raw).name);
}

proof fn lemma_scan_plain(n: Seq<char>, i: nat)
    requires
        i <= n.len(),
        clean(n),
    ensures
        scan_prefix(n, i) == (ScanState {
            name: n.subrange(0, i as int),
            buf: Seq::empty(),
            inside: false,
            year: None,
        }),
    decreases i,
{
    if i > 0 {
        lemma_scan_plain(n, (i - 1) as nat);
        if i > 1 {
            assert(!(is_white_space(n[i - 2]) && is_white_space(n[i - 1])));
            assert(n.subrange(0, i - 1).last() == n[i - 2]);
        }
        assert(is_white_space(n[i - 1]) ==> n[i - 1] == ' ');
        assert(n.subrange(0, i - 1).push(n[i - 1]) =~= n.subrange(0, i as int));
    } else {
        assert(n.subrange(0, 0) =~= Seq::<char>::empty());
    }
}

/// Normalising a name that normalisation gave, as a bare name without its
/// year, gives that name again, wherever the name is in final form: no
/// white space at either end, and no trailing sort article after a comma.
pub proof fn lemma_normalize_idempotent(raw: Seq<char>)
    requires
        trimmed(normalized_name(raw)) == normalized_name(raw),
        !article_clause(normalized_name(raw)),
    ensures
        normalized_name(normalized_name(raw)) == normalized_name(raw),
        normalized_year(normalized_name(raw)) is None,
{
    let n = normalized_name(raw);
    lemma_no_unmatched_parenthesis(raw);
    lemma_scan_plain(n, n.len());
    assert(n.subrange(0, n.len() as int) =~= n);
}

} // verus!
