//! Words of command output and the command lines given to the translator:
//! splitting on Unicode white space, trimming, and building arguments.
use vstd::prelude::*;
use vstd::string::StringExecFns;
use crate::text::{chars_of, string_of};
use crate::editor::{replaced, replace_all};

verus! {

/// Unicode white space, as `char::is_whitespace` tests it.
pub open spec fn is_white(c: char) -> bool {
    ||| '\t' <= c <= '\r'
    ||| c == ' '
    ||| c == '\u{85}'
    ||| c == '\u{A0}'
    ||| c == '\u{1680}'
    ||| '\u{2000}' <= c <= '\u{200A}'
    ||| c == '\u{2028}'
    ||| c == '\u{2029}'
    ||| c == '\u{202F}'
    ||| c == '\u{205F}'
    ||| c == '\u{3000}'
}

pub fn white(c: char) -> (b: bool)
    ensures
        b == is_white(c),
{
    ('\t' <= c && c <= '\r') || c == ' ' || c == '\u{85}' || c == '\u{A0}' || c == '\u{1680}' || (
    '\u{2000}' <= c && c <= '\u{200A}') || c == '\u{2028}' || c == '\u{2029}' || c == '\u{202F}'
        || c == '\u{205F}' || c == '\u{3000}'
}

/// Where the run of non-white characters that starts at `i` ends.
pub open spec fn run_end(s: Seq<char>, i: int) -> int
    decreases s.len() - i,
{
    if i < 0 || i >= s.len() || is_white(s[i]) {
        i
    } else {
        run_end(s, i + 1)
    }
}

pub proof fn lemma_run_end(s: Seq<char>, i: int)
    requires
        0 <= i <= s.len(),
    ensures
        i <= run_end(s, i) <= s.len(),
        forall|k: int| i <= k < run_end(s, i) ==> !is_white(#[trigger] s[k]),
        run_end(s, i) < s.len() ==> is_white(s[run_end(s, i)]),
    decreases s.len() - i,
{
    if i < s.len() && !is_white(s[i]) {
        lemma_run_end(s, i + 1);
    }
}

/// The words of `s` from position `i` on: the maximal runs of characters
/// that are not white space, in order.
pub open spec fn words_from(s: Seq<char>, i: int) -> Seq<Seq<char>>
    decreases s.len() - i,
{
    if i < 0 || i >= s.len() {
        Seq::empty()
    } else if is_white(s[i]) {
        words_from(s, i + 1)
    } else {
        let e = run_end(s, i);
        proof {
            lemma_run_end(s, i + 1);
        }
        seq![s.subrange(i, e)] + words_from(s, e)
    }
}

/// The words of a text, as `str::split_whitespace` yields them.
pub open spec fn words(s: Seq<char>) -> Seq<Seq<char>> {
    words_from(s, 0)
}

/// The words of a text.
pub fn split_words(s: &str) -> (v: Vec<String>)
    ensures
        v@.len() == words(s@).len(),
        forall|k: int| 0 <= k < v@.len() ==> #[trigger] v@[k]@ == words(s@)[k],
{
    let c = chars_of(s);
    let mut v: Vec<String> = Vec::new();
    let mut i: usize = 0;
    while i < c.len()
        invariant
            c@ == s@,
            i <= c@.len(),
            v@.len() + words_from(c@, i as int).len() == words(c@).len(),
            forall|k: int| 0 <= k < v@.len() ==> #[trigger] v@[k]@ == words(c@)[k],
            forall|k: int|
                0 <= k < words_from(c@, i as int).len() ==> #[trigger] words_from(c@, i as int)[k]
                    == words(c@)[v@.len() + k],
        decreases c@.len() - i,
    {
        if white(c[i]) {
            i = i + 1;
        } else {
            let mut e = i;
            while e < c.len() && !white(c[e])
                invariant
                    i <= e <= c@.len(),
                    run_end(c@, i as int) == run_end(c@, e as int),
                decreases c@.len() - e,
            {
                e = e + 1;
            }
            proof {
                lemma_run_end(c@, i as int);
            }
            let w = string_of(&c, i, e);
            let ghost rest = words_from(c@, e as int);
            let ghost here = words_from(c@, i as int);
            assert(here == seq![c@.subrange(i as int, e as int)] + rest);
            assert(here[0] == w@);
            assert forall|k: int| 0 <= k < rest.len() implies #[trigger] rest[k] == words(c@)[v@.len() + 1 + k] by {
                assert(here[k + 1] == rest[k]);
            }
            v.push(w);
            i = e;
        }
    }
    v
}

/// The number of words of a text.
pub fn count_words(s: &str) -> (n: usize)
    ensures
        n == words(s@).len(),
{
    split_words(s).len()
}

/// The words of a text joined by `sep`.
pub open spec fn joined(w: Seq<Seq<char>>, sep: char) -> Seq<char>
    decreases w.len(),
{
    if w.len() == 0 {
        Seq::empty()
    } else if w.len() == 1 {
        w[0]
    } else {
        joined(w.drop_last(), sep) + seq![sep] + w.last()
    }
}

/// The languages the translator lists, one per word of its output, joined
/// by `|` for a choice menu.
pub fn language_list(output: &str) -> (r: String)
    ensures
        r@ == joined(words(output@), '|'),
{
    let v = split_words(output);
    let mut r = String::new();
    let mut k: usize = 0;
    while k < v.len()
        invariant
            k <= v@.len(),
            v@.len() == words(output@).len(),
            forall|m: int| 0 <= m < v@.len() ==> #[trigger] v@[m]@ == words(output@)[m],
            r@ == joined(words(output@).take(k as int), '|'),
        decreases v@.len() - k,
    {
        let ghost w = words(output@);
        assert(w.take(k + 1).drop_last() =~= w.take(k as int));
        if k > 0 {
            crate::text::push_char(&mut r, '|');
        }
        r.append(v[k].as_str());
        k = k + 1;
        proof {
            if k == 1 {
                assert(r@ =~= w.take(1)[0]);
            } else {
                assert(r@ =~= joined(w.take(k - 1), '|') + seq!['|'] + w.take(k as int).last());
            }
        }
    }
    assert(words(output@).take(v@.len() as int) =~= words(output@));
    r
}

/// Whether a process listing names exactly one process: the program runs
/// once.
pub fn single_instance(output: &str) -> (b: bool)
    ensures
        b == (words(output@).len() == 1),
{
    count_words(output) == 1
}

/// The number of white characters at the start of `s`.
pub open spec fn lead_white(s: Seq<char>) -> nat
    decreases s.len(),
{
    if s.len() > 0 && is_white(s[0]) {
        1 + lead_white(s.drop_first())
    } else {
        0
    }
}

/// The number of white characters at the end of `s`.
pub open spec fn trail_white(s: Seq<char>) -> nat
    decreases s.len(),
{
    if s.len() > 0 && is_white(s.last()) {
        1 + trail_white(s.drop_last())
    } else {
        0
    }
}

/// The text without white space at either end, as `str::trim` gives it.
pub open spec fn trimmed(s: Seq<char>) -> Seq<char> {
    let a = lead_white(s);
    if a == s.len() {
        Seq::empty()
    } else {
        s.subrange(a as int, s.len() - trail_white(s))
    }
}

proof fn lemma_lead_white(s: Seq<char>, i: int)
    requires
        0 <= i <= s.len(),
        forall|k: int| 0 <= k < i ==> is_white(#[trigger] s[k]),
    ensures
        lead_white(s) == i + lead_white(s.skip(i)),
    decreases i,
{
    if i > 0 {
        assert(s.drop_first().skip(i - 1) =~= s.skip(i));
        assert forall|k: int| 0 <= k < i - 1 implies is_white(#[trigger] s.drop_first()[k]) by {
            assert(s.drop_first()[k] == s[k + 1]);
        }
        lemma_lead_white(s.drop_first(), i - 1);
    } else {
        assert(s.skip(0) =~= s);
    }
}

proof fn lemma_trail_white(s: Seq<char>, i: int)
    requires
        0 <= i <= s.len(),
        forall|k: int| s.len() - i <= k < s.len() ==> is_white(#[trigger] s[k]),
    ensures
        trail_white(s) == i + trail_white(s.take(s.len() - i)),
    decreases i,
{
    if i > 0 {
        assert(s.drop_last().take(s.len() - i) =~= s.take(s.len() - i));
        assert forall|k: int| s.len() - 1 - (i - 1) <= k < s.len() - 1 implies is_white(
            #[trigger] s.drop_last()[k],
        ) by {
            assert(s.drop_last()[k] == s[k]);
        }
        lemma_trail_white(s.drop_last(), i - 1);
    } else {
        assert(s.take(s.len() as int) =~= s);
    }
}

/// A text without white space at either end.
pub fn trim(s: &str) -> (r: String)
    ensures
        r@ == trimmed(s@),
{
    let c = chars_of(s);
    let mut a: usize = 0;
    while a < c.len() && white(c[a])
        invariant
            a <= c@.len(),
            forall|k: int| 0 <= k < a ==> is_white(#[trigger] c@[k]),
        decreases c@.len() - a,
    {
        a = a + 1;
    }
    proof {
        lemma_lead_white(c@, a as int);
        if a < c@.len() {
            assert(!is_white(c@.skip(a as int)[0]));
        } else {
            assert(c@.skip(a as int).len() == 0);
        }
    }
    if a == c.len() {
        return String::new();
    }
    let mut b: usize = c.len();
    while b > a && white(c[b - 1])
        invariant
            a < c@.len(),
            a <= b <= c@.len(),
            !is_white(c@[a as int]),
            forall|k: int| b <= k < c@.len() ==> is_white(#[trigger] c@[k]),
        decreases b,
    {
        b = b - 1;
    }
    proof {
        let i = c@.len() - b;
        lemma_trail_white(c@, i);
        let t = c@.take(b as int);
        assert(t.len() > 0 && t.last() == c@[b - 1]);
        assert(!is_white(t.last()));
    }
    string_of(&c, a, b)
}

/// The arguments given to `trans` to translate `word` from `from` to `to`:
/// brief output for more than one word, spoken with `voice`, the word
/// trimmed and with blank lines made single.
pub open spec fn trans_args(voice: bool, from: Seq<char>, to: Seq<char>, word: Seq<char>) -> Seq<Seq<char>> {
    seq![
        "-join-sentence"@, "-no-ansi"@, "-show-languages"@, "n"@, "-show-original"@, "n"@,
        "-show-original-dictionary"@, "n"@, "-show-original-dictionary"@, "n"@,
        "-show-prompt-message"@, "n"@, "-show-alternatives"@, "n"@,
        "-show-translation-phonetics"@, "n"@, "-indent"@, "2"@, "-from"@, from, "-to"@, to,
        if words(word).len() == 1 { ""@ } else { "-brief"@ },
        if voice { "-speak"@ } else { ""@ },
        replaced(trimmed(word), seq!['\n', '\n'], seq!['\n']),
    ]
}

fn lit(s: &str) -> (r: String)
    ensures
        r@ == s@,
{
    s.to_owned()
}

/// The arguments of the translator command.
pub fn translate_args(voice: bool, from: &str, to: &str, word: &str) -> (v: Vec<String>)
    ensures
        v@.len() == trans_args(voice, from@, to@, word@).len(),
        forall|k: int| 0 <= k < v@.len() ==> #[trigger] v@[k]@ == trans_args(voice, from@, to@, word@)[k],
{
    let mut v: Vec<String> = Vec::new();
    v.push(lit("-join-sentence"));
    v.push(lit("-no-ansi"));
    v.push(lit("-show-languages"));
    v.push(lit("n"));
    v.push(lit("-show-original"));
    v.push(lit("n"));
    v.push(lit("-show-original-dictionary"));
    v.push(lit("n"));
    v.push(lit("-show-original-dictionary"));
    v.push(lit("n"));
    v.push(lit("-show-prompt-message"));
    v.push(lit("n"));
    v.push(lit("-show-alternatives"));
    v.push(lit("n"));
    v.push(lit("-show-translation-phonetics"));
    v.push(lit("n"));
    v.push(lit("-indent"));
    v.push(lit("2"));
    v.push(lit("-from"));
    v.push(from.to_owned());
    v.push(lit("-to"));
    v.push(to.to_owned());
    if count_words(word) == 1 {
        v.push(lit(""));
    } else {
        v.push(lit("-brief"));
    }
    if voice {
        v.push(lit("-speak"));
    } else {
        v.push(lit(""));
    }
    let t = trim(word);
    let mut nn = String::new();
    crate::text::push_char(&mut nn, '\n');
    crate::text::push_char(&mut nn, '\n');
    let mut n = String::new();
    crate::text::push_char(&mut n, '\n');
    assert(nn@ =~= seq!['\n', '\n']);
    assert(n@ =~= seq!['\n']);
    v.push(replace_all(t.as_str(), nn.as_str(), n.as_str()));
    assert(v@.len() == 25);
    v
}

} // verus!
