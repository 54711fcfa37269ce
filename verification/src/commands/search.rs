//! `gtd search`: which lines of a file match a query, and where in a line
//! the match is shown.
use vstd::prelude::*;
use crate::text::{
    chars_of, join_words, join_words_text, lines_of, slice_chars, split_lines, string_of,
    string_views, trim, trimmed, views,
};

verus! {

broadcast use vstd::string::group_string_axioms;

// ---------------------------------------------------------------------------
// The query
// ---------------------------------------------------------------------------

/// The query of `gtd search WORDS`: the words joined with spaces, or nothing
/// where that is blank.
pub fn search_query(words: &[String]) -> (q: Option<String>)
    ensures
        trimmed(join_words(string_views(words@))).len() == 0 ==> q is None,
        trimmed(join_words(string_views(words@))).len() > 0 ==> (q matches Some(s) && s@
            == join_words(string_views(words@))),
{
    let q = join_words_text(words);
    let t = trim(&chars_of(q.as_str()));
    if t.len() == 0 {
        None
    } else {
        Some(q)
    }
}

/// Whether `line` matches `query`, as regex's case-insensitive match of the
/// query taken literally (`regex::escape`) finds it; `None` where regex
/// cannot build that pattern.
pub uninterp spec fn query_match(query: Seq<char>, line: Seq<char>) -> Option<bool>;

/// `regex::RegexBuilder::new(&regex::escape(query)).case_insensitive(true)
/// .build()`, then `Regex::is_match(line)`. The answer is named
/// [`query_match`]; whether the pattern builds depends on the query alone,
/// which is stated.
#[verifier::external_body]
fn line_matches(query: &str, line: &str) -> (r: Option<bool>)
    ensures
        r == query_match(query@, line@),
        r is None <==> query_match(query@, Seq::empty()) is None,
{
    match regex::RegexBuilder::new(&regex::escape(query)).case_insensitive(true).build() {
        Ok(re) => Some(re.is_match(line)),
        Err(_) => None,
    }
}

/// Whether regex builds the pattern for `query`.
pub fn query_compiles(query: &str) -> (ok: bool)
    ensures
        ok == (query_match(query@, Seq::empty()) is Some),
{
    let empty = string_of(&Vec::new());
    line_matches(query, empty.as_str()).is_some()
}

/// Whether each line of `ls` matches `query`; `None` where the pattern does
/// not build.
pub open spec fn match_flags(query: Seq<char>, ls: Seq<Seq<char>>) -> Option<Seq<bool>>
    decreases ls.len(),
{
    if ls.len() == 0 {
        Some(seq![])
    } else {
        match (match_flags(query, ls.drop_last()), query_match(query, ls.last())) {
            (Some(fs), Some(m)) => Some(fs.push(m)),
            _ => None,
        }
    }
}

/// The lines of `ls` whose flag is set, each with its number (from 1).
pub open spec fn numbered(ls: Seq<Seq<char>>, flags: Seq<bool>) -> Seq<(nat, Seq<char>)>
    decreases ls.len(),
{
    if ls.len() == 0 {
        seq![]
    } else {
        let rest = numbered(ls.drop_last(), flags);
        if flags[ls.len() - 1] {
            rest.push((ls.len(), ls.last()))
        } else {
            rest
        }
    }
}

/// The lines of a file's text that match `query`, each with its line number
/// (from 1); `None` where the pattern does not build.
pub open spec fn search_hits(query: Seq<char>, content: Seq<char>) -> Option<
    Seq<(nat, Seq<char>)>,
> {
    match match_flags(query, lines_of(content)) {
        Some(flags) => Some(numbered(lines_of(content), flags)),
        None => None,
    }
}

/// Each numbered line is a line of `ls` counted from 1, blank lines
/// included: number `n` names `ls[n - 1]`, whose flag is set; the numbers
/// rise, and every line whose flag is set is numbered.
pub proof fn law_hits_are_numbered_lines(ls: Seq<Seq<char>>, flags: Seq<bool>)
    requires
        flags.len() >= ls.len(),
    ensures
        forall|k: int|
            0 <= k < numbered(ls, flags).len() ==> {
                let h = #[trigger] numbered(ls, flags)[k];
                &&& 1 <= h.0 <= ls.len()
                &&& h.1 == ls[h.0 - 1]
                &&& flags[h.0 - 1]
            },
        forall|j: int, k: int|
            0 <= j < k < numbered(ls, flags).len() ==> (#[trigger] numbered(ls, flags)[j]).0 < (
            #[trigger] numbered(ls, flags)[k]).0,
        forall|i: int|
            0 <= i < ls.len() && #[trigger] flags[i] ==> exists|k: int|
                0 <= k < numbered(ls, flags).len() && (#[trigger] numbered(ls, flags)[k]).0 == i
                    + 1,
    decreases ls.len(),
{
    if ls.len() > 0 {
        let rest_ls = ls.drop_last();
        law_hits_are_numbered_lines(rest_ls, flags);
        let rest = numbered(rest_ls, flags);
        let all = numbered(ls, flags);
        assert forall|k: int| 0 <= k < rest.len() implies (#[trigger] rest[k]).0 < ls.len() by {}
        assert forall|k: int| 0 <= k < rest.len() implies (#[trigger] rest[k]).1 == ls[rest[k].0
            - 1] by {
            assert(rest_ls[rest[k].0 - 1] == ls[rest[k].0 - 1]);
        }
        assert forall|k: int| 0 <= k < all.len() implies {
            let h = #[trigger] all[k];
            &&& 1 <= h.0 <= ls.len()
            &&& h.1 == ls[h.0 - 1]
            &&& flags[h.0 - 1]
        } by {
            if k < rest.len() {
                assert(all[k] == rest[k]);
            }
        }
        assert forall|j: int, k: int| 0 <= j < k < all.len() implies (#[trigger] all[j]).0 < (
        #[trigger] all[k]).0 by {
            if k < rest.len() {
                assert(all[j] == rest[j]);
                assert(all[k] == rest[k]);
            } else {
                assert(all[j] == rest[j]);
                assert(rest[j].0 < ls.len());
            }
        }
        assert forall|i: int| 0 <= i < ls.len() && #[trigger] flags[i] implies exists|k: int|
            0 <= k < all.len() && (#[trigger] all[k]).0 == i + 1 by {
            if i < ls.len() - 1 {
                let k = choose|k: int| 0 <= k < rest.len() && (#[trigger] rest[k]).0 == i + 1;
                assert(all[k] == rest[k]);
            } else {
                assert(all[rest.len() as int].0 == i + 1);
            }
        }
    }
}

/// Where the pattern builds, there is a flag for each line, set exactly
/// where the line matches.
proof fn lemma_match_flags(query: Seq<char>, ls: Seq<Seq<char>>)
    ensures
        match_flags(query, ls) matches Some(fs) ==> fs.len() == ls.len() && forall|i: int|
            0 <= i < ls.len() ==> #[trigger] fs[i] == (query_match(query, ls[i]) == Some(true)),
    decreases ls.len(),
{
    if ls.len() > 0 {
        lemma_match_flags(query, ls.drop_last());
        if let Some(fs) = match_flags(query, ls) {
            let prev = match_flags(query, ls.drop_last())->0;
            assert forall|i: int| 0 <= i < ls.len() implies #[trigger] fs[i] == (query_match(
                query,
                ls[i],
            ) == Some(true)) by {
                if i < ls.len() - 1 {
                    assert(fs[i] == prev[i]);
                    assert(ls.drop_last()[i] == ls[i]);
                }
            }
        }
    }
}

/// Each hit of a search is a line of the text, numbered from 1 with blank
/// lines counted, that matches the query; the hits come in the order of the
/// lines, and every matching line is a hit.
pub proof fn law_search_hits_are_matching_lines(query: Seq<char>, content: Seq<char>)
    ensures
        search_hits(query, content) matches Some(hs) ==> {
            let ls = lines_of(content);
            &&& forall|k: int|
                0 <= k < hs.len() ==> {
                    let h = #[trigger] hs[k];
                    &&& 1 <= h.0 <= ls.len()
                    &&& h.1 == ls[h.0 - 1]
                    &&& query_match(query, h.1) == Some(true)
                }
            &&& forall|j: int, k: int| 0 <= j < k < hs.len() ==> (#[trigger] hs[j]).0 < (
            #[trigger] hs[k]).0
            &&& forall|i: int|
                0 <= i < ls.len() && query_match(query, #[trigger] ls[i]) == Some(true) ==> exists|
                    k: int,
                | 0 <= k < hs.len() && (#[trigger] hs[k]).0 == i + 1
        },
{
    let ls = lines_of(content);
    lemma_match_flags(query, ls);
    if let Some(fs) = match_flags(query, ls) {
        law_hits_are_numbered_lines(ls, fs);
        let hs = numbered(ls, fs);
        assert forall|i: int|
            0 <= i < ls.len() && query_match(query, #[trigger] ls[i]) == Some(true) implies exists|
            k: int,
        | 0 <= k < hs.len() && (#[trigger] hs[k]).0 == i + 1 by {
            assert(fs[i]);
        }
    }
}

/// A matching line.
pub struct Hit {
    pub line_number: usize,
    pub line: String,
}

pub open spec fn hit_views(hs: Seq<Hit>) -> Seq<(nat, Seq<char>)> {
    hs.map_values(|h: Hit| (h.line_number as nat, h.line@))
}

/// The lines whose flag is set, numbered from 1 (see [`numbered`]).
pub fn numbered_hits(lines: &[String], flags: &[bool]) -> (hs: Vec<Hit>)
    requires
        flags@.len() == lines@.len(),
    ensures
        hit_views(hs@) == numbered(string_views(lines@), flags@),
{
    let ghost ls = string_views(lines@);
    let mut hs: Vec<Hit> = Vec::new();
    let mut i: usize = 0;
    assert(ls.take(0) == Seq::<Seq<char>>::empty());
    while i < lines.len()
        invariant
            i <= lines@.len(),
            flags@.len() == lines@.len(),
            ls == string_views(lines@),
            hit_views(hs@) == numbered(ls.take(i as int), flags@),
        decreases lines@.len() - i,
    {
        let ghost before = hs@;
        let ghost sub = ls.take(i + 1);
        assert(sub.drop_last() == ls.take(i as int));
        assert(sub.last() == lines@[i as int]@);
        if flags[i] {
            hs.push(Hit { line_number: i + 1, line: lines[i].clone() });
            assert(hit_views(hs@) == hit_views(before).push(((i + 1) as nat, lines@[i as int]@)));
        }
        i = i + 1;
    }
    assert(ls.take(lines@.len() as int) == ls);
    hs
}

/// The lines of `content` that match `query`, numbered from 1; `None` where
/// regex cannot build the pattern for `query`.
pub fn search_text(query: &str, content: &str) -> (r: Option<Vec<Hit>>)
    ensures
        r matches Some(hs) ==> search_hits(query@, content@) == Some(hit_views(hs@)),
        r is None ==> search_hits(query@, content@) is None,
{
    let ls = split_lines(&chars_of(content));
    let ghost all = views(ls@);
    let mut lines: Vec<String> = Vec::new();
    let mut flags: Vec<bool> = Vec::new();
    let mut i: usize = 0;
    assert(all.take(0) == Seq::<Seq<char>>::empty());
    while i < ls.len()
        invariant
            i <= ls@.len(),
            all == views(ls@),
            all == lines_of(content@),
            lines@.len() == i,
            flags@.len() == i,
            string_views(lines@) == all.take(i as int),
            match_flags(query@, all.take(i as int)) == Some(flags@),
        decreases ls@.len() - i,
    {
        let line = string_of(&ls[i]);
        let ghost sub = all.take(i + 1);
        assert(sub.drop_last() == all.take(i as int));
        assert(sub.last() == line@);
        match line_matches(query, line.as_str()) {
            None => {
                proof {
                    lemma_flags_none(query@, all, i as int);
                }
                return None;
            },
            Some(m) => {
                let ghost before = lines@;
                flags.push(m);
                lines.push(line);
                assert(string_views(lines@) == string_views(before).push(all[i as int]));
            },
        }
        i = i + 1;
    }
    assert(all.take(ls@.len() as int) == all);
    Some(numbered_hits(&lines, &flags))
}

proof fn lemma_flags_none(query: Seq<char>, ls: Seq<Seq<char>>, i: int)
    requires
        0 <= i < ls.len(),
        query_match(query, ls[i]) is None,
    ensures
        match_flags(query, ls) is None,
    decreases ls.len(),
{
    if i < ls.len() - 1 {
        assert(ls.drop_last()[i] == ls[i]);
        lemma_flags_none(query, ls.drop_last(), i);
    }
}

// ---------------------------------------------------------------------------
// Where a match is shown
// ---------------------------------------------------------------------------

/// What `str::to_lowercase` gives (full Unicode lowercase mapping, with the
/// final-sigma rule).
pub uninterp spec fn lowercase_of(s: Seq<char>) -> Seq<char>;

/// `str::to_lowercase`. Its result is named [`lowercase_of`].
#[verifier::external_body]
fn lowercase(s: &str) -> (r: String)
    ensures
        r@ == lowercase_of(s@),
{
    s.to_lowercase()
}

/// The number of bytes UTF-8 takes for `c`.
pub open spec fn utf8_width(c: char) -> nat {
    let u = c as u32;
    if u < 0x80 {
        1
    } else if u < 0x800 {
        2
    } else if u < 0x10000 {
        3
    } else {
        4
    }
}

/// The number of bytes UTF-8 takes for `s`, as `str::len` counts them.
pub open spec fn byte_len(s: Seq<char>) -> nat
    decreases s.len(),
{
    if s.len() == 0 {
        0
    } else {
        byte_len(s.drop_last()) + utf8_width(s.last())
    }
}

/// The index of the first place where `needle` starts in `hay`, as
/// `str::find` finds it (counted in characters here).
pub open spec fn find_from(hay: Seq<char>, needle: Seq<char>) -> Option<nat>
    decreases hay.len(),
{
    if needle.len() <= hay.len() && hay.take(needle.len() as int) == needle {
        Some(0)
    } else if hay.len() == 0 {
        None
    } else {
        match find_from(hay.drop_first(), needle) {
            Some(k) => Some(k + 1),
            None => None,
        }
    }
}

/// The index of the character that starts at byte `b` of `s`; `None` where
/// `b` is not a character boundary of `s` (or lies past its end).
pub open spec fn char_at_byte(s: Seq<char>, b: int) -> Option<nat>
    decreases s.len(),
{
    if b == 0 {
        Some(0)
    } else if s.len() == 0 || b < 0 {
        None
    } else {
        match char_at_byte(s.drop_first(), b - utf8_width(s[0])) {
            Some(a) => Some(a + 1),
            None => None,
        }
    }
}

/// The smaller of `x` and `usize::MAX`: `usize::saturating_add`'s cap.
pub open spec fn saturated(x: int) -> int {
    if x > usize::MAX {
        usize::MAX as int
    } else {
        x
    }
}

/// How a line is shown with its match marked: the part before the match,
/// the match, and the part after. The first place where the lowercase query
/// `lq` occurs in the lowercase line `ll` gives the byte offset of the
/// match, and the query's own length in bytes its end; where either offset
/// is no character boundary of the line, or the match does not occur, the
/// line is shown as it is (`None`).
pub open spec fn highlight_with(
    line: Seq<char>,
    query: Seq<char>,
    ll: Seq<char>,
    lq: Seq<char>,
) -> Option<(Seq<char>, Seq<char>, Seq<char>)> {
    match find_from(ll, lq) {
        None => None,
        Some(k) => {
            let pos = byte_len(ll.take(k as int)) as int;
            let end = saturated(pos + byte_len(query));
            match (char_at_byte(line, pos), char_at_byte(line, end)) {
                (Some(a), Some(b)) => if pos > end {
                    None
                } else {
                    Some(
                    (line.take(a as int), line.subrange(a as int, b as int), line.skip(b as int)),
                )
                },
                _ => None,
            }
        },
    }
}

fn width(c: char) -> (w: u128)
    ensures
        w == utf8_width(c),
{
    let u = c as u32;
    if u < 0x80 {
        1
    } else if u < 0x800 {
        2
    } else if u < 0x10000 {
        3
    } else {
        4
    }
}

proof fn lemma_byte_len_bound(s: Seq<char>)
    ensures
        byte_len(s) <= 4 * s.len(),
    decreases s.len(),
{
    if s.len() > 0 {
        lemma_byte_len_bound(s.drop_last());
    }
}

/// The number of bytes of the first `n` characters of `s`.
fn prefix_bytes(s: &[char], n: usize) -> (b: u128)
    requires
        n <= s@.len(),
    ensures
        b == byte_len(s@.take(n as int)),
{
    let mut b: u128 = 0;
    let mut i: usize = 0;
    while i < n
        invariant
            i <= n <= s@.len(),
            b == byte_len(s@.take(i as int)),
        decreases n - i,
    {
        proof {
            lemma_byte_len_bound(s@.take(i as int));
            assert(s@.take(i + 1).drop_last() == s@.take(i as int));
        }
        b = b + width(s[i]);
        i = i + 1;
    }
    b
}

proof fn lemma_find_step(hay: Seq<char>, needle: Seq<char>, k: int)
    requires
        0 <= k < hay.len(),
        !(needle.len() <= hay.len() - k && hay.skip(k).take(needle.len() as int) == needle),
    ensures
        find_from(hay.skip(k), needle) == (match find_from(hay.skip(k + 1), needle) {
            Some(j) => Some(j + 1),
            None => None,
        }),
{
    assert(hay.skip(k).drop_first() == hay.skip(k + 1));
}

/// The index of the first place where `needle` starts in `hay`.
fn find_chars(hay: &[char], needle: &[char]) -> (r: Option<usize>)
    ensures
        r matches Some(k) ==> find_from(hay@, needle@) == Some(k as nat),
        r is None ==> find_from(hay@, needle@) is None,
{
    let mut k: usize = 0;
    assert(hay@.skip(0) == hay@);
    while k <= hay.len()
        invariant
            k <= hay@.len(),
            k <= hay@.len() ==> find_from(hay@, needle@) == (match find_from(hay@.skip(k as int), needle@) {
                Some(j) => Some((j + k) as nat),
                None => None,
            }),
        decreases hay@.len() + 1 - k,
    {
        let fits = needle.len() <= hay.len() - k;
        proof {
            if needle@.len() == 0 {
                assert(hay@.subrange(k as int, k as int) =~= needle@);
            }
        }
        if fits && crate::text::chars_eq(&slice_chars(hay, k, k + needle.len()), needle) {
            assert(hay@.skip(k as int).take(needle@.len() as int) == hay@.subrange(
                k as int,
                k + needle@.len(),
            ));
            return Some(k);
        }
        if k == hay.len() {
            assert(hay@.skip(k as int) == Seq::<char>::empty());
            assert(needle@.len() > 0);
            return None;
        }
        proof {
            if fits {
                assert(hay@.skip(k as int).take(needle@.len() as int) == hay@.subrange(
                    k as int,
                    k + needle@.len(),
                ));
            }
            lemma_find_step(hay@, needle@, k as int);
        }
        k = k + 1;
    }
    None
}

proof fn lemma_char_at_byte_step(s: Seq<char>, i: int, b: int, off: int)
    requires
        0 <= i < s.len(),
        off == byte_len(s.take(i)),
        b != off,
        b >= 0,
    ensures
        char_at_byte(s.skip(i), b - off) == (match char_at_byte(s.skip(i + 1), b - off - utf8_width(s[i])) {
            Some(a) => Some(a + 1),
            None => None,
        }),
{
    assert(s.skip(i)[0] == s[i]);
    assert(s.skip(i).drop_first() == s.skip(i + 1));
}

/// The index of the character that starts at byte `b` of `s`.
fn char_index_at_byte(s: &[char], b: u128) -> (r: Option<usize>)
    ensures
        r matches Some(a) ==> char_at_byte(s@, b as int) == Some(a as nat),
        r is None ==> char_at_byte(s@, b as int) is None,
{
    let mut i: usize = 0;
    let mut off: u128 = 0;
    assert(s@.skip(0) == s@);
    while i < s.len() && off < b
        invariant
            i <= s@.len(),
            off == byte_len(s@.take(i as int)),
            off <= b,
            char_at_byte(s@, b as int) == (match char_at_byte(s@.skip(i as int), b - off) {
                Some(a) => Some((a + i) as nat),
                None => None,
            }),
        decreases s@.len() - i,
    {
        proof {
            lemma_char_at_byte_step(s@, i as int, b as int, off as int);
            lemma_byte_len_bound(s@.take(i as int));
            assert(s@.take(i + 1).drop_last() == s@.take(i as int));
        }
        let w = width(s[i]);
        if off + w > b {
            proof {
                assert(char_at_byte(s@.skip(i + 1), b - off - w) is None);
            }
            return None;
        }
        off = off + w;
        i = i + 1;
    }
    if off == b {
        Some(i)
    } else {
        None
    }
}

/// How a line is shown with its match marked, the line and the query
/// lowercased as `str::to_lowercase` does.
pub open spec fn highlight(line: Seq<char>, query: Seq<char>) -> Option<
    (Seq<char>, Seq<char>, Seq<char>),
> {
    highlight_with(line, query, lowercase_of(line), lowercase_of(query))
}

/// A line shown with its match marked (see [`highlight`]).
pub fn highlight_match(line: &str, query: &str) -> (r: Option<(String, String, String)>)
    ensures
        r matches Some(p) ==> highlight(line@, query@) == Some((p.0@, p.1@, p.2@)),
        r is None ==> highlight(line@, query@) is None,
{
    let lower_line = lowercase(line);
    let lower_query = lowercase(query);
    mark_match(line, query, lower_line.as_str(), lower_query.as_str())
}

/// A line shown with its match marked, given the lowercase forms of the line
/// and of the query (see [`highlight_with`]).
pub fn mark_match(line: &str, query: &str, lower_line: &str, lower_query: &str) -> (r: Option<
    (String, String, String),
>)
    ensures
        r matches Some(p) ==> highlight_with(line@, query@, lower_line@, lower_query@) == Some(
            (p.0@, p.1@, p.2@),
        ),
        r is None ==> highlight_with(line@, query@, lower_line@, lower_query@) is None,
{
    let lc = chars_of(line);
    let ll = chars_of(lower_line);
    let lq = chars_of(lower_query);
    let qc = chars_of(query);
    match find_chars(&ll, &lq) {
        None => None,
        Some(k) => {
            proof {
                lemma_find_bound(ll@, lq@);
            }
            let pos = prefix_bytes(&ll, k);
            let qb = prefix_bytes(&qc, qc.len());
            assert(qc@.take(qc@.len() as int) == qc@);
            proof {
                lemma_byte_len_bound(ll@.take(k as int));
                lemma_byte_len_bound(qc@);
                assert(k <= usize::MAX && qc@.len() == qc.len());
                assert(pos <= 4 * usize::MAX && qb <= 4 * usize::MAX);
            }
            let max: u128 = usize::MAX as u128;
            let end: u128 = if pos + qb > max {
                max
            } else {
                pos + qb
            };
            match char_index_at_byte(&lc, pos) {
                None => None,
                Some(a) => match char_index_at_byte(&lc, end) {
                    None => None,
                    Some(b) => {
                        if pos > end {
                            return None;
                        }
                        proof {
                            lemma_char_at_byte_bounds(lc@, pos as int);
                            lemma_char_at_byte_bounds(lc@, end as int);
                            lemma_char_at_byte_monotone(lc@, pos as int, end as int);
                        }
                        Some(
                            (
                                string_of(&slice_chars(&lc, 0, a)),
                                string_of(&slice_chars(&lc, a, b)),
                                string_of(&slice_chars(&lc, b, lc.len())),
                            ),
                        )
                    },
                },
            }
        },
    }
}

proof fn lemma_find_bound(hay: Seq<char>, needle: Seq<char>)
    ensures
        find_from(hay, needle) matches Some(k) ==> k + needle.len() <= hay.len(),
    decreases hay.len(),
{
    if !(needle.len() <= hay.len() && hay.take(needle.len() as int) == needle) && hay.len() > 0 {
        lemma_find_bound(hay.drop_first(), needle);
    }
}

proof fn lemma_char_at_byte_bounds(s: Seq<char>, b: int)
    ensures
        char_at_byte(s, b) matches Some(a) ==> a <= s.len(),
    decreases s.len(),
{
    if b != 0 && s.len() > 0 && b >= 0 {
        lemma_char_at_byte_bounds(s.drop_first(), b - utf8_width(s[0]));
    }
}

proof fn lemma_char_at_byte_monotone(s: Seq<char>, b1: int, b2: int)
    requires
        b1 <= b2,
    ensures
        char_at_byte(s, b1) is Some && char_at_byte(s, b2) is Some ==> char_at_byte(s, b1)->0 <= char_at_byte(s, b2)->0,
    decreases s.len(),
{
    if b1 != 0 && s.len() > 0 && b1 >= 0 {
        lemma_char_at_byte_monotone(s.drop_first(), b1 - utf8_width(s[0]), b2 - utf8_width(s[0]));
    }
}

} // verus!
