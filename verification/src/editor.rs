//! Text-editor rules: displaying paths, finding the next match of a search
//! (plain or regular expression), and replacing matches.
use vstd::prelude::*;
use crate::text::{chars_of, string_of, push_char};
use vstd::string::StringExecFns;
use vstd::string::StringSliceAdditionalSpecFns;
use vstd::string::StrSliceExecFns;

verus! {

// ---------------------------------------------------------------------
// Paths

/// The prefix that marks an extended-length Windows path: `\\?\`.
pub open spec fn unc_prefix() -> Seq<char> {
    seq!['\\', '\\', '?', '\\']
}

/// The path without a leading `\\?\`, if it has one.
pub open spec fn without_unc(p: Seq<char>) -> Seq<char> {
    if p.len() >= 4 && p.take(4) == unc_prefix() {
        p.skip(4)
    } else {
        p
    }
}

/// Shows a path without its extended-length prefix `\\?\`.
pub fn strip_unc_path(p: &str) -> (r: String)
    ensures
        r@ == without_unc(p@),
{
    let v = chars_of(p);
    if v.len() >= 4 && v[0] == '\\' && v[1] == '\\' && v[2] == '?' && v[3] == '\\' {
        assert(v@.take(4) =~= unc_prefix());
        let r = string_of(&v, 4, v.len());
        assert(r@ =~= v@.skip(4));
        r
    } else {
        proof {
            if v@.len() >= 4 && v@.take(4) == unc_prefix() {
                assert(v@[0] == v@.take(4)[0]);
                assert(v@[1] == v@.take(4)[1]);
                assert(v@[2] == v@.take(4)[2]);
                assert(v@[3] == v@.take(4)[3]);
            }
        }
        let r = string_of(&v, 0, v.len());
        assert(r@ =~= v@);
        r
    }
}

// ---------------------------------------------------------------------
// Plain search

/// Start positions of the non-overlapping occurrences of `p` in `t` at or
/// after `i`, found left to right; nothing for an empty `p`.
pub open spec fn occurrences(t: Seq<u8>, p: Seq<u8>, i: int) -> Seq<int>
    decreases t.len() - i,
{
    if p.len() == 0 || i < 0 || i + p.len() > t.len() {
        Seq::empty()
    } else if t.subrange(i, i + p.len()) == p {
        seq![i] + occurrences(t, p, i + p.len())
    } else {
        occurrences(t, p, i + 1)
    }
}

fn bytes_match_at(t: &[u8], p: &[u8], i: usize) -> (b: bool)
    requires
        i + p@.len() <= t@.len(),
    ensures
        b == (t@.subrange(i as int, i + p@.len()) == p@),
{
    let n = t.len();
    let mut k: usize = 0;
    while k < p.len()
        invariant
            k <= p@.len(),
            n == t@.len(),
            i + p@.len() <= t@.len(),
            forall|m: int| 0 <= m < k ==> t@[i + m] == p@[m],
        decreases p@.len() - k,
    {
        if t[i + k] != p[k] {
            assert(t@.subrange(i as int, i + p@.len())[k as int] != p@[k as int]);
            return false;
        }
        k = k + 1;
    }
    assert(t@.subrange(i as int, i + p@.len()) =~= p@);
    true
}

/// The byte ranges of the non-overlapping occurrences of `needle` in
/// `text`, left to right (`str::match_indices` for a non-empty needle).
pub fn plain_matches(text: &str, needle: &str) -> (v: Vec<(usize, usize)>)
    ensures
        ({
            let occ = occurrences(text.spec_bytes(), needle.spec_bytes(), 0);
            &&& v@.len() == occ.len()
            &&& forall|k: int|
                0 <= k < v@.len() ==> #[trigger] v@[k].0 == occ[k] && v@[k].1 == occ[k]
                    + needle.spec_bytes().len()
        }),
{
    let t = text.as_bytes();
    let p = needle.as_bytes();
    let ghost tb = t@;
    let ghost pb = p@;
    let mut v: Vec<(usize, usize)> = Vec::new();
    if p.len() == 0 {
        return v;
    }
    let mut i: usize = 0;
    while i <= t.len() && p.len() <= t.len() - i
        invariant
            tb == t@,
            pb == p@,
            p@.len() > 0,
            i <= t@.len(),
            forall|k: int|
                0 <= k < v@.len() ==> #[trigger] v@[k].0 + p@.len() == v@[k].1,
            v@.map_values(|r: (usize, usize)| r.0 as int) + occurrences(t@, p@, i as int)
                == occurrences(t@, p@, 0),
        decreases t@.len() - i,
    {
        if bytes_match_at(t, p, i) {
            let ghost before = v@;
            v.push((i, i + p.len()));
            assert(v@.map_values(|r: (usize, usize)| r.0 as int) =~= before.map_values(
                |r: (usize, usize)| r.0 as int,
            ).push(i as int));
            assert(v@.map_values(|r: (usize, usize)| r.0 as int) + occurrences(
                t@,
                p@,
                (i + p.len()) as int,
            ) =~= before.map_values(|r: (usize, usize)| r.0 as int) + occurrences(
                t@,
                p@,
                i as int,
            ));
            i = i + p.len();
        } else {
            i = i + 1;
        }
    }
    assert(occurrences(t@, p@, i as int) =~= Seq::<int>::empty());
    assert(v@.map_values(|r: (usize, usize)| r.0 as int) =~= occurrences(t@, p@, 0));
    proof {
        let occ = occurrences(t@, p@, 0);
        assert forall|k: int| 0 <= k < v@.len() implies #[trigger] v@[k].0 == occ[k] && v@[k].1
            == occ[k] + p@.len() by {
            assert(v@.map_values(|r: (usize, usize)| r.0 as int)[k] == v@[k].0 as int);
        }
    }
    v
}

/// The position that follows `idx` when cycling through `n` matches.
pub open spec fn next_index(idx: nat, n: nat) -> nat {
    if idx + 1 == n {
        0
    } else {
        idx + 1
    }
}

/// Picks the match at `idx` among the matches found, and the index of the
/// match to pick next time (back to the first after the last). Nothing
/// when there is no match.
pub fn cycle_match(matches: &Vec<(usize, usize)>, idx: usize) -> (r: Option<((usize, usize), usize)>)
    requires
        matches@.len() == 0 || idx < matches@.len(),
    ensures
        matches@.len() == 0 ==> r is None,
        matches@.len() > 0 ==> r == Some(
            (matches@[idx as int], next_index(idx as nat, matches@.len()) as usize),
        ),
{
    if matches.len() == 0 {
        None
    } else {
        let next = if idx + 1 == matches.len() {
            0
        } else {
            idx + 1
        };
        Some((matches[idx], next))
    }
}

// ---------------------------------------------------------------------
// Plain replacement

/// The text with every occurrence of `p` replaced by `r`, left to right
/// and without overlap (`str::replace`). An empty `p` occurs before each
/// character and at the end.
pub open spec fn replaced(t: Seq<char>, p: Seq<char>, r: Seq<char>) -> Seq<char>
    decreases t.len(),
{
    if p.len() == 0 {
        if t.len() == 0 {
            r
        } else {
            r + seq![t[0]] + replaced(t.skip(1), p, r)
        }
    } else if t.len() < p.len() {
        t
    } else if t.take(p.len() as int) == p {
        r + replaced(t.skip(p.len() as int), p, r)
    } else {
        seq![t[0]] + replaced(t.skip(1), p, r)
    }
}

fn chars_match_at(t: &Vec<char>, p: &Vec<char>, i: usize) -> (b: bool)
    requires
        i + p@.len() <= t@.len(),
    ensures
        b == (t@.skip(i as int).take(p@.len() as int) == p@),
{
    let n = t.len();
    let mut k: usize = 0;
    while k < p.len()
        invariant
            k <= p@.len(),
            n == t@.len(),
            i + p@.len() <= t@.len(),
            forall|m: int| 0 <= m < k ==> t@[i + m] == p@[m],
        decreases p@.len() - k,
    {
        if t[i + k] != p[k] {
            assert(t@.skip(i as int).take(p@.len() as int)[k as int] != p@[k as int]);
            return false;
        }
        k = k + 1;
    }
    assert(t@.skip(i as int).take(p@.len() as int) =~= p@);
    true
}

/// Replaces every occurrence of `search` in `text` by `with` (see
/// `replaced`).
pub fn replace_all(text: &str, search: &str, with: &str) -> (out: String)
    ensures
        out@ == replaced(text@, search@, with@),
{
    let t = chars_of(text);
    let p = chars_of(search);
    let mut out = String::new();
    let mut i: usize = 0;
    assert(t@.skip(0) =~= t@);
    assert(out@ =~= Seq::<char>::empty());
    while i < t.len()
        invariant
            i <= t@.len(),
            t@ == text@,
            p@ == search@,
            out@ + replaced(t@.skip(i as int), p@, with@) == replaced(t@, p@, with@),
        decreases t@.len() - i,
    {
        let ghost rest = t@.skip(i as int);
        if p.len() == 0 {
            out.append(with);
            push_char(&mut out, t[i]);
            assert(rest[0] == t@[i as int]);
            assert(rest.skip(1) =~= t@.skip(i + 1));
            i = i + 1;
        } else if t.len() - i < p.len() {
            let tail = string_of(&t, i, t.len());
            assert(tail@ =~= rest);
            out.append(tail.as_str());
            assert(t@.skip(t@.len() as int) =~= Seq::<char>::empty());
            i = t.len();
        } else if chars_match_at(&t, &p, i) {
            out.append(with);
            assert(rest.skip(p@.len() as int) =~= t@.skip(i + p@.len()));
            i = i + p.len();
        } else {
            push_char(&mut out, t[i]);
            assert(rest[0] == t@[i as int]);
            assert(rest.skip(1) =~= t@.skip(i + 1));
            i = i + 1;
        }
        assert(out@ + replaced(t@.skip(i as int), p@, with@) == replaced(t@, p@, with@)) by {
            assert((out@ + replaced(t@.skip(i as int), p@, with@)) =~= (out@ + replaced(
                t@.skip(i as int),
                p@,
                with@,
            )));
        }
    }
    let ghost empty = t@.skip(i as int);
    assert(empty =~= Seq::<char>::empty());
    if p.len() == 0 {
        out.append(with);
    }
    out
}

// ---------------------------------------------------------------------
// Regular expressions

#[verifier::external_type_specification]
#[verifier::external_body]
pub struct ExRegex(regex::Regex);

/// Whether `regex::Regex::new` accepts the pattern: it is well formed and
/// the compiled program stays under the crate's default size limit.
pub uninterp spec fn regex_compiles(pattern: Seq<char>) -> bool;

/// The byte ranges of the successive non-overlapping matches that
/// `regex::Regex::find_iter` yields for a pattern on a text.
pub uninterp spec fn regex_match_ranges(pattern: Seq<char>, text: Seq<char>) -> Seq<(usize, usize)>;

/// The text that `regex::Regex::replace` gives back: the first match of the
/// pattern replaced by the replacement, with `$name` expanded.
pub uninterp spec fn regex_replaced(pattern: Seq<char>, text: Seq<char>, rep: Seq<char>) -> Seq<char>;

/// A compiled regular expression together with the pattern it was made from.
pub struct SearchPattern {
    re: regex::Regex,
    source: String,
}

impl View for SearchPattern {
    type V = Seq<char>;

    closed spec fn view(&self) -> Seq<char> {
        self.source@
    }
}

/// Compiles a pattern.
///
/// Trusted: `regex::Regex::new`. The contract claims that it succeeds
/// exactly on the patterns named by `regex_compiles`, and that the value
/// kept is the regex of that pattern.
#[verifier::external_body]
fn compile_pattern(pattern: &str) -> (r: Option<SearchPattern>)
    ensures
        r is Some <==> regex_compiles(pattern@),
        r is Some ==> r->0@ == pattern@,
{
    match regex::Regex::new(pattern) {
        Ok(re) => Some(SearchPattern { re, source: pattern.to_owned() }),
        Err(_) => None,
    }
}

/// The match ranges of a compiled pattern on a text.
///
/// Trusted: `regex::Regex::find_iter`, each match taken by its `start` and
/// `end`. The contract claims that the ranges are those named by
/// `regex_match_ranges` for the pattern the regex was compiled from.
#[verifier::external_body]
fn regex_find_ranges(p: &SearchPattern, text: &str) -> (r: Vec<(usize, usize)>)
    ensures
        r@ == regex_match_ranges(p@, text@),
{
    p.re.find_iter(text).map(|m| (m.start(), m.end())).collect()
}

/// The text with the first match of a compiled pattern replaced.
///
/// Trusted: `regex::Regex::replace` with a string replacement. The
/// contract claims that the result is the one named by `regex_replaced`
/// for the pattern the regex was compiled from.
#[verifier::external_body]
fn regex_replace_first(p: &SearchPattern, text: &str, rep: &str) -> (r: String)
    ensures
        r@ == regex_replaced(p@, text@, rep@),
{
    p.re.replace(text, rep).into_owned()
}

/// Whether a pattern compiles as a regular expression; the search and
/// replace boxes turn red when it does not.
pub fn pattern_is_valid(pattern: &str) -> (b: bool)
    ensures
        b == regex_compiles(pattern@),
{
    compile_pattern(pattern).is_some()
}

/// The ranges of the plain occurrences of `p` in `t` (bytes), as pairs.
pub open spec fn plain_ranges(t: Seq<u8>, p: Seq<u8>) -> Seq<(usize, usize)> {
    occurrences(t, p, 0).map_values(|o: int| (o as usize, (o + p.len()) as usize))
}

/// The matches of a search: plain occurrences, or regular-expression
/// matches when `use_regex` is set; `None` for a pattern that does not
/// compile.
pub fn search_ranges(text: &str, needle: &str, use_regex: bool) -> (r: Option<Vec<(usize, usize)>>)
    ensures
        use_regex ==> (r is None <==> !regex_compiles(needle@)),
        use_regex && r is Some ==> r->0@ == regex_match_ranges(needle@, text@),
        !use_regex ==> r is Some && r->0@ == plain_ranges(text.spec_bytes(), needle.spec_bytes()),
{
    if use_regex {
        match compile_pattern(needle) {
            Some(p) => Some(regex_find_ranges(&p, text)),
            None => None,
        }
    } else {
        let v = plain_matches(text, needle);
        proof {
            let occ = occurrences(text.spec_bytes(), needle.spec_bytes(), 0);
            let pr = plain_ranges(text.spec_bytes(), needle.spec_bytes());
            assert forall|k: int| 0 <= k < v@.len() implies #[trigger] v@[k] == pr[k] by {
                assert(v@[k].0 == occ[k]);
            }
            assert(v@ =~= pr);
        }
        Some(v)
    }
}

/// What one press of "Next" in the find box does.
#[derive(Debug, PartialEq, Eq, Structural)]
pub enum FindOutcome {
    /// The pattern does not compile; the box turns red.
    InvalidPattern,
    /// Nothing to select: the search is empty or has no match.
    Nothing,
    /// Select `start..end`; the next press picks the match at `next`.
    Select { start: usize, end: usize, next: usize },
    /// The remembered position lies past the matches of this search.
    Stale,
}

/// One press of "Next" in the find box, with `idx` the position among the
/// matches remembered from the previous press.
pub fn find_step(text: &str, needle: &str, use_regex: bool, idx: usize) -> (r: FindOutcome)
    ensures
        use_regex && !regex_compiles(needle@) ==> r == FindOutcome::InvalidPattern,
        !(use_regex && !regex_compiles(needle@)) && needle@.len() == 0 ==> r == FindOutcome::Nothing,
        !(use_regex && !regex_compiles(needle@)) && needle@.len() > 0 ==> {
            let ms = if use_regex {
                regex_match_ranges(needle@, text@)
            } else {
                plain_ranges(text.spec_bytes(), needle.spec_bytes())
            };
            &&& ms.len() == 0 ==> r == FindOutcome::Nothing
            &&& 0 < ms.len() <= idx ==> r == FindOutcome::Stale
            &&& idx < ms.len() ==> r == (FindOutcome::Select {
                start: ms[idx as int].0,
                end: ms[idx as int].1,
                next: next_index(idx as nat, ms.len()) as usize,
            })
        },
{
    if use_regex && !pattern_is_valid(needle) {
        return FindOutcome::InvalidPattern;
    }
    if needle.unicode_len() == 0 {
        return FindOutcome::Nothing;
    }
    match search_ranges(text, needle, use_regex) {
        None => FindOutcome::InvalidPattern,
        Some(ms) => {
            if ms.len() == 0 {
                FindOutcome::Nothing
            } else if idx >= ms.len() {
                FindOutcome::Stale
            } else {
                match cycle_match(&ms, idx) {
                    Some((m, next)) => FindOutcome::Select { start: m.0, end: m.1, next },
                    None => FindOutcome::Nothing,
                }
            }
        },
    }
}

/// What "Apply" in the replace box gives: the new text, or `None` when the
/// search is a regular expression that does not compile. A regular
/// expression replaces its first match; a plain search replaces every
/// occurrence.
pub fn replace_step(text: &str, search: &str, with: &str, use_regex: bool) -> (r: Option<String>)
    ensures
        use_regex ==> (r is None <==> !regex_compiles(search@)),
        use_regex && r is Some ==> r->0@ == regex_replaced(search@, text@, with@),
        !use_regex ==> r is Some && r->0@ == replaced(text@, search@, with@),
{
    if use_regex {
        match compile_pattern(search) {
            Some(p) => Some(regex_replace_first(&p, text, with)),
            None => None,
        }
    } else {
        Some(replace_all(text, search, with))
    }
}


/// Pressing "Next" cycles through the matches: from each match it goes to
/// the following one, and from the last back to the first.
pub proof fn law_matches_cycle(idx: nat, n: nat)
    requires
        idx < n,
    ensures
        next_index(idx, n) < n,
        idx + 1 < n ==> next_index(idx, n) == idx + 1,
        idx + 1 == n ==> next_index(idx, n) == 0,
{
}

/// `p` occurs in `t` at some position.
pub open spec fn occurs_in(t: Seq<char>, p: Seq<char>) -> bool {
    exists|i: int| 0 <= i && i + p.len() <= t.len() && #[trigger] t.subrange(i, i + p.len()) == p
}

/// Replacing a non-empty text that does not occur leaves the text as it
/// is.
pub proof fn law_replace_without_occurrence(t: Seq<char>, p: Seq<char>, r: Seq<char>)
    requires
        p.len() > 0,
        !occurs_in(t, p),
    ensures
        replaced(t, p, r) == t,
    decreases t.len(),
{
    if t.len() >= p.len() {
        assert(t.take(p.len() as int) != p) by {
            let z: int = 0;
            assert(t.subrange(z, z + p.len()) != p);
            assert(t.subrange(z, z + p.len()) =~= t.take(p.len() as int));
        }
        let u = t.skip(1);
        assert(!occurs_in(u, p)) by {
            if occurs_in(u, p) {
                let i = choose|i: int| 0 <= i && i + p.len() <= u.len() && #[trigger] u.subrange(i, i + p.len()) == p;
                assert(t.subrange(i + 1, i + 1 + p.len()) =~= u.subrange(i, i + p.len()));
            }
        }
        law_replace_without_occurrence(u, p, r);
        assert(seq![t[0]] + u =~= t);
    }
}

// ---------------------------------------------------------------------
// Tabs and files

/// The label of an editor tab: a tab character, the file name, and `" *"`
/// while the buffer has unsaved changes.
pub open spec fn tab_label_of(name: Seq<char>, modified: bool) -> Seq<char> {
    seq!['\t'] + name + if modified { seq![' ', '*'] } else { Seq::empty() }
}

pub fn tab_label(name: &str, modified: bool) -> (r: String)
    ensures
        r@ == tab_label_of(name@, modified),
{
    let mut r = String::new();
    push_char(&mut r, '\t');
    r.append(name);
    if modified {
        push_char(&mut r, ' ');
        push_char(&mut r, '*');
    }
    assert(r@ =~= tab_label_of(name@, modified));
    r
}

/// The widget id of the `n`-th editor row: `edrow` and the number.
pub open spec fn editor_row_id_of(n: nat) -> Seq<char> {
    seq!['e', 'd', 'r', 'o', 'w'] + crate::hudson::decimal(n)
}

pub fn editor_row_id(n: u32) -> (r: String)
    ensures
        r@ == editor_row_id_of(n as nat),
{
    let mut r = String::new();
    push_char(&mut r, 'e');
    push_char(&mut r, 'd');
    push_char(&mut r, 'r');
    push_char(&mut r, 'o');
    push_char(&mut r, 'w');
    crate::hudson::push_decimal(&mut r, n as u64);
    assert(r@ =~= editor_row_id_of(n as nat));
    r
}

/// Where a file is already open among the tabs, if it is: some tab that
/// shows the same path (or, for `None`, some tab with no file).
pub fn open_index(paths: &Vec<Option<String>>, path: &Option<String>) -> (r: Option<usize>)
    ensures
        r is None <==> forall|k: int| 0 <= k < paths@.len() ==> !same_path(#[trigger] paths@[k], *path),
        r matches Some(k) ==> k < paths@.len() && same_path(paths@[k as int], *path),
{
    let mut k: usize = 0;
    while k < paths.len()
        invariant
            k <= paths@.len(),
            forall|m: int| 0 <= m < k ==> !same_path(#[trigger] paths@[m], *path),
        decreases paths@.len() - k,
    {
        let hit = match (&paths[k], path) {
            (Some(a), Some(b)) => {
                let x = chars_of(a.as_str());
                let y = chars_of(b.as_str());
                crate::text::same_chars(&x, y.as_slice())
            },
            (None, None) => true,
            _ => false,
        };
        if hit {
            return Some(k);
        }
        k = k + 1;
    }
    None
}

/// Two optional paths name the same file: both absent, or equal texts.
pub open spec fn same_path(a: Option<String>, b: Option<String>) -> bool {
    match (a, b) {
        (Some(x), Some(y)) => x@ == y@,
        (None, None) => true,
        _ => false,
    }
}

/// File extensions that the file browser opens as pictures.
pub open spec fn is_picture_ext(ext: Seq<char>) -> bool {
    ext == seq!['j', 'p', 'g'] || ext == seq!['g', 'i', 'f'] || ext == seq!['p', 'n', 'g'] || ext
        == seq!['b', 'm', 'p']
}

pub fn picture_extension(ext: &str) -> (b: bool)
    ensures
        b == is_picture_ext(ext@),
{
    let e = chars_of(ext);
    let jpg = ['j', 'p', 'g'];
    let gif = ['g', 'i', 'f'];
    let png = ['p', 'n', 'g'];
    let bmp = ['b', 'm', 'p'];
    assert(jpg@ =~= seq!['j', 'p', 'g']);
    assert(gif@ =~= seq!['g', 'i', 'f']);
    assert(png@ =~= seq!['p', 'n', 'g']);
    assert(bmp@ =~= seq!['b', 'm', 'p']);
    crate::text::same_chars(&e, &jpg) || crate::text::same_chars(&e, &gif) || crate::text::same_chars(
        &e,
        &png,
    ) || crate::text::same_chars(&e, &bmp)
}

/// The languages the editor colours, chosen by file extension.
#[derive(Debug, Clone, Copy, PartialEq, Eq, Structural)]
pub enum Language {
    Rust,
    Toml,
    Markdown,
}

pub open spec fn language_of(ext: Seq<char>) -> Option<Language> {
    if ext == seq!['r', 's'] {
        Some(Language::Rust)
    } else if ext == seq!['t', 'o', 'm', 'l'] {
        Some(Language::Toml)
    } else if ext == seq!['m', 'd'] {
        Some(Language::Markdown)
    } else {
        None
    }
}

pub fn highlight_language(ext: &str) -> (r: Option<Language>)
    ensures
        r == language_of(ext@),
{
    let e = chars_of(ext);
    let rs = ['r', 's'];
    let toml = ['t', 'o', 'm', 'l'];
    let md = ['m', 'd'];
    assert(rs@ =~= seq!['r', 's']);
    assert(toml@ =~= seq!['t', 'o', 'm', 'l']);
    assert(md@ =~= seq!['m', 'd']);
    if crate::text::same_chars(&e, &rs) {
        Some(Language::Rust)
    } else if crate::text::same_chars(&e, &toml) {
        Some(Language::Toml)
    } else if crate::text::same_chars(&e, &md) {
        Some(Language::Markdown)
    } else {
        None
    }
}

} // verus!
