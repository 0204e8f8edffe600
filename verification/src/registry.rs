//! The name registry behind the CRUD page: entries of three names, kept
//! sorted, listed through a case-insensitive prefix filter.
use vstd::prelude::*;
use vstd::relations::{sorted_by, total_ordering};
use vstd::multiset::Multiset;
use vstd::utf8::{encode_utf8, encode_utf8_decode_utf8};
use vstd::string::StringExecFns;
use vstd::string::StringSliceAdditionalSpecFns;
use vstd::string::StrSliceExecFns;

verus! {

/// An entry: surname, name and secret name, in that order.
pub type Entry = [String; 3];

/// The three names of an entry.
pub type EntryView = (Seq<char>, Seq<char>, Seq<char>);

pub open spec fn entry_view(e: Entry) -> EntryView {
    (e[0]@, e[1]@, e[2]@)
}

pub open spec fn field(e: EntryView, k: int) -> Seq<char> {
    if k == 0 {
        e.0
    } else if k == 1 {
        e.1
    } else {
        e.2
    }
}

// ---------------------------------------------------------------------
// Order

/// Byte strings in lexicographic order.
pub open spec fn bytes_lt(a: Seq<u8>, b: Seq<u8>) -> bool
    decreases a.len(),
{
    if b.len() == 0 {
        false
    } else if a.len() == 0 {
        true
    } else if a[0] != b[0] {
        a[0] < b[0]
    } else {
        bytes_lt(a.drop_first(), b.drop_first())
    }
}

/// Strings in the order of `str`: their UTF-8 bytes compared
/// lexicographically.
pub open spec fn str_lt(a: Seq<char>, b: Seq<char>) -> bool {
    bytes_lt(encode_utf8(a), encode_utf8(b))
}

/// Entries in the order of arrays of strings: field by field.
pub open spec fn entry_lt(a: EntryView, b: EntryView) -> bool {
    ||| str_lt(a.0, b.0)
    ||| a.0 == b.0 && str_lt(a.1, b.1)
    ||| a.0 == b.0 && a.1 == b.1 && str_lt(a.2, b.2)
}

pub open spec fn entry_le(a: EntryView, b: EntryView) -> bool {
    a == b || entry_lt(a, b)
}

proof fn lemma_bytes_lt_irreflexive(a: Seq<u8>)
    ensures
        !bytes_lt(a, a),
    decreases a.len(),
{
    if a.len() > 0 {
        lemma_bytes_lt_irreflexive(a.drop_first());
    }
}

proof fn lemma_bytes_lt_asymmetric(a: Seq<u8>, b: Seq<u8>)
    ensures
        !(bytes_lt(a, b) && bytes_lt(b, a)),
    decreases a.len(),
{
    if a.len() > 0 && b.len() > 0 && a[0] == b[0] {
        lemma_bytes_lt_asymmetric(a.drop_first(), b.drop_first());
    }
}

proof fn lemma_bytes_lt_total(a: Seq<u8>, b: Seq<u8>)
    ensures
        a == b || bytes_lt(a, b) || bytes_lt(b, a),
    decreases a.len(),
{
    if a.len() > 0 && b.len() > 0 && a[0] == b[0] {
        lemma_bytes_lt_total(a.drop_first(), b.drop_first());
        if a.drop_first() == b.drop_first() {
            assert(a =~= seq![a[0]] + a.drop_first());
            assert(b =~= seq![b[0]] + b.drop_first());
        }
    } else if a.len() == 0 && b.len() == 0 {
        assert(a =~= b);
    }
}

proof fn lemma_bytes_lt_transitive(a: Seq<u8>, b: Seq<u8>, c: Seq<u8>)
    requires
        bytes_lt(a, b),
        bytes_lt(b, c),
    ensures
        bytes_lt(a, c),
    decreases a.len(),
{
    if a.len() > 0 && b.len() > 0 && c.len() > 0 && a[0] == b[0] && b[0] == c[0] {
        lemma_bytes_lt_transitive(a.drop_first(), b.drop_first(), c.drop_first());
    }
}

proof fn lemma_str_lt_facts(a: Seq<char>, b: Seq<char>)
    ensures
        !str_lt(a, a),
        !(str_lt(a, b) && str_lt(b, a)),
        a == b || str_lt(a, b) || str_lt(b, a),
{
    lemma_bytes_lt_irreflexive(encode_utf8(a));
    lemma_bytes_lt_asymmetric(encode_utf8(a), encode_utf8(b));
    lemma_bytes_lt_total(encode_utf8(a), encode_utf8(b));
    encode_utf8_decode_utf8(a);
    encode_utf8_decode_utf8(b);
}

proof fn lemma_str_lt_transitive(a: Seq<char>, b: Seq<char>, c: Seq<char>)
    requires
        str_lt(a, b),
        str_lt(b, c),
    ensures
        str_lt(a, c),
{
    lemma_bytes_lt_transitive(encode_utf8(a), encode_utf8(b), encode_utf8(c));
}

proof fn lemma_entry_lt_facts(a: EntryView, b: EntryView)
    ensures
        !entry_lt(a, a),
        !(entry_lt(a, b) && entry_lt(b, a)),
        a == b || entry_lt(a, b) || entry_lt(b, a),
{
    lemma_str_lt_facts(a.0, b.0);
    lemma_str_lt_facts(a.1, b.1);
    lemma_str_lt_facts(a.2, b.2);
}

proof fn lemma_entry_lt_transitive(a: EntryView, b: EntryView, c: EntryView)
    requires
        entry_lt(a, b),
        entry_lt(b, c),
    ensures
        entry_lt(a, c),
{
    lemma_str_lt_facts(a.0, b.0);
    lemma_str_lt_facts(b.0, c.0);
    lemma_str_lt_facts(a.1, b.1);
    lemma_str_lt_facts(b.1, c.1);
    if str_lt(a.0, b.0) && str_lt(b.0, c.0) {
        lemma_str_lt_transitive(a.0, b.0, c.0);
    }
    if a.0 == b.0 && b.0 == c.0 && str_lt(a.1, b.1) && str_lt(b.1, c.1) {
        lemma_str_lt_transitive(a.1, b.1, c.1);
    }
    if a.0 == b.0 && b.0 == c.0 && a.1 == b.1 && b.1 == c.1 && str_lt(a.2, b.2) && str_lt(b.2, c.2) {
        lemma_str_lt_transitive(a.2, b.2, c.2);
    }
}

/// The order in which the registry keeps its entries is a total order,
/// so a sorted arrangement of given entries is unique.
pub proof fn law_entry_order_is_total()
    ensures
        total_ordering(|a: EntryView, b: EntryView| entry_le(a, b)),
{
    let le = |a: EntryView, b: EntryView| entry_le(a, b);
    assert forall|x: EntryView, y: EntryView| #[trigger] le(x, y) && #[trigger] le(y, x) implies x
        == y by {
        lemma_entry_lt_facts(x, y);
    }
    assert forall|x: EntryView, y: EntryView, z: EntryView| #[trigger] le(x, y) && #[trigger] le(
        y,
        z,
    ) implies le(x, z) by {
        if x != y && y != z {
            lemma_entry_lt_transitive(x, y, z);
        }
    }
    assert forall|x: EntryView, y: EntryView| #[trigger] le(x, y) || #[trigger] le(y, x) by {
        lemma_entry_lt_facts(x, y);
    }
}

/// Sorting keeps every entry: an entry created is among the entries
/// after the registry sorts itself.
pub proof fn law_created_entry_is_kept(after: Seq<EntryView>, before: Seq<EntryView>, e: EntryView)
    requires
        sorted_from(after, before.push(e)),
    ensures
        after.contains(e),
        after.len() == before.len() + 1,
{
    before.push(e).to_multiset_ensures();
    after.to_multiset_ensures();
    assert(before.push(e).contains(e)) by {
        assert(before.push(e)[before.len() as int] == e);
    }
    assert(before.push(e).to_multiset().count(e) > 0);
    assert(after.to_multiset().count(e) > 0);
}

/// Two sorted arrangements of the same entries are the same: what the
/// registry lists after sorting depends only on which entries it holds.
pub proof fn law_sorted_arrangement_is_unique(a: Seq<EntryView>, b: Seq<EntryView>)
    requires
        sorted_by(a, |x: EntryView, y: EntryView| entry_le(x, y)),
        sorted_by(b, |x: EntryView, y: EntryView| entry_le(x, y)),
        a.to_multiset() == b.to_multiset(),
    ensures
        a == b,
    decreases a.len(),
{
    let le = |x: EntryView, y: EntryView| entry_le(x, y);
    a.to_multiset_ensures();
    b.to_multiset_ensures();
    if a.len() == 0 {
        assert(b.len() == 0);
        assert(a =~= b);
    } else {
        assert(b.len() == a.len());
        assert(a.contains(a[0]));
        assert(b.to_multiset().count(a[0]) > 0);
        assert(b.contains(a[0]));
        let j = choose|j: int| 0 <= j < b.len() && b[j] == a[0];
        assert(b.contains(b[0]));
        assert(a.to_multiset().count(b[0]) > 0);
        assert(a.contains(b[0]));
        let i = choose|i: int| 0 <= i < a.len() && a[i] == b[0];
        assert(le(a[0], a[i]) || i == 0);
        assert(le(b[0], b[j]) || j == 0);
        lemma_entry_lt_facts(a[0], b[0]);
        assert(a[0] == b[0]);
        let a1 = a.drop_first();
        let b1 = b.drop_first();
        assert(a1 =~= a.remove(0));
        assert(b1 =~= b.remove(0));
        assert(a1.to_multiset() =~= b1.to_multiset());
        assert forall|p: int, q: int| 0 <= p < q < a1.len() implies #[trigger] le(a1[p], a1[q]) by {
            assert(le(a[p + 1], a[q + 1]));
        }
        assert forall|p: int, q: int| 0 <= p < q < b1.len() implies #[trigger] le(b1[p], b1[q]) by {
            assert(le(b[p + 1], b[q + 1]));
        }
        law_sorted_arrangement_is_unique(a1, b1);
        assert(a =~= seq![a[0]] + a1);
        assert(b =~= seq![b[0]] + b1);
    }
}

// ---------------------------------------------------------------------
// Comparing and building strings

fn bytes_less(a: &[u8], b: &[u8]) -> (r: bool)
    ensures
        r == bytes_lt(a@, b@),
{
    let mut i: usize = 0;
    assert(a@.skip(0) =~= a@);
    assert(b@.skip(0) =~= b@);
    while i < a.len() && i < b.len() && a[i] == b[i]
        invariant
            i <= a@.len(),
            i <= b@.len(),
            bytes_lt(a@, b@) == bytes_lt(a@.skip(i as int), b@.skip(i as int)),
        decreases a@.len() - i,
    {
        assert(a@.skip(i as int).drop_first() =~= a@.skip(i + 1));
        assert(b@.skip(i as int).drop_first() =~= b@.skip(i + 1));
        i = i + 1;
    }
    if i == b.len() {
        false
    } else if i == a.len() {
        true
    } else {
        a[i] < b[i]
    }
}

fn str_less(a: &String, b: &String) -> (r: bool)
    ensures
        r == str_lt(a@, b@),
{
    bytes_less(a.as_str().as_bytes(), b.as_str().as_bytes())
}

fn entry_less(a: &Entry, b: &Entry) -> (r: bool)
    ensures
        r == entry_lt(entry_view(*a), entry_view(*b)),
{
    proof {
        lemma_str_lt_facts(a[0]@, b[0]@);
        lemma_str_lt_facts(a[1]@, b[1]@);
    }
    if str_less(&a[0], &b[0]) {
        true
    } else if str_less(&b[0], &a[0]) {
        false
    } else if str_less(&a[1], &b[1]) {
        true
    } else if str_less(&b[1], &a[1]) {
        false
    } else {
        str_less(&a[2], &b[2])
    }
}

/// Whether `p` is a prefix of `s`, byte for byte.
pub open spec fn bytes_prefix(p: Seq<u8>, s: Seq<u8>) -> bool {
    p.len() <= s.len() && s.take(p.len() as int) == p
}

fn starts_with(s: &str, p: &str) -> (r: bool)
    ensures
        r == bytes_prefix(p.spec_bytes(), s.spec_bytes()),
        r <==> p.spec_bytes().len() <= s.spec_bytes().len() && forall|i: int|
            0 <= i < p.spec_bytes().len() ==> s.spec_bytes()[i] == p.spec_bytes()[i],
{
    let sb = s.as_bytes();
    let pb = p.as_bytes();
    if pb.len() > sb.len() {
        return false;
    }
    let mut i: usize = 0;
    while i < pb.len()
        invariant
            pb@ == p.spec_bytes(),
            sb@ == s.spec_bytes(),
            pb@.len() <= sb@.len(),
            i <= pb@.len(),
            forall|k: int| 0 <= k < i ==> sb@[k] == pb@[k],
        decreases pb@.len() - i,
    {
        if sb[i] != pb[i] {
            assert(sb@.take(pb@.len() as int)[i as int] != pb@[i as int]);
            return false;
        }
        i = i + 1;
    }
    assert(sb@.take(pb@.len() as int) =~= pb@);
    true
}

/// The lower case of a text, as `str::to_lowercase` gives it.
pub uninterp spec fn lowercase(s: Seq<char>) -> Seq<char>;

/// Trusted: `str::to_lowercase`, whose result depends on the text alone;
/// the contract names it `lowercase`.
#[verifier::external_body]
fn to_lower(s: &str) -> (r: String)
    ensures
        r@ == lowercase(s@),
{
    s.to_lowercase()
}

/// The line that lists an entry: its first two names joined by ", ".
pub open spec fn display(e: EntryView) -> Seq<char> {
    e.0 + seq![',', ' '] + e.1
}

fn display_of(e: &Entry) -> (s: String)
    ensures
        s@ == display(entry_view(*e)),
{
    let mut s = String::new();
    s.append(e[0].as_str());
    s.append(", ");
    proof {
        reveal_strlit(", ");
    }
    s.append(e[1].as_str());
    s
}

fn same_text(a: &str, b: &str) -> (r: bool)
    ensures
        r == (a@ == b@),
{
    let x = crate::text::chars_of(a);
    let y = crate::text::chars_of(b);
    if x.len() != y.len() {
        return false;
    }
    let mut i: usize = 0;
    while i < x.len()
        invariant
            x@ == a@,
            y@ == b@,
            x@.len() == y@.len(),
            i <= x@.len(),
            forall|k: int| 0 <= k < i ==> x@[k] == y@[k],
        decreases x@.len() - i,
    {
        if x[i] != y[i] {
            return false;
        }
        i = i + 1;
    }
    assert(x@ =~= y@);
    true
}

// ---------------------------------------------------------------------
// The registry

/// The lines listed for `entries` under a filter: the display lines of the
/// entries whose field, in lower case, starts with the lower-cased prefix.
pub open spec fn listed(entries: Seq<EntryView>, prefix: Seq<char>, k: int) -> Seq<Seq<char>>
    decreases entries.len(),
{
    if entries.len() == 0 {
        Seq::empty()
    } else {
        let rest = listed(entries.drop_last(), prefix, k);
        if bytes_prefix(encode_utf8(prefix), encode_utf8(lowercase(field(entries.last(), k)))) {
            rest.push(display(entries.last()))
        } else {
            rest
        }
    }
}

/// The entries are sorted and hold the same entries as `before`.
pub open spec fn sorted_from(after: Seq<EntryView>, before: Seq<EntryView>) -> bool {
    &&& sorted_by(after, |a: EntryView, b: EntryView| entry_le(a, b))
    &&& after.to_multiset() == before.to_multiset()
}

/// The three names of a triple of strings.
pub open spec fn names_of(t: (String, String, String)) -> EntryView {
    (t.0@, t.1@, t.2@)
}

/// The entries of the registry and the views of the lines it lists.
pub struct Crud {
    model: Vec<Entry>,
}

pub open spec fn views_of(v: Seq<Entry>) -> Seq<EntryView> {
    v.map_values(|e: Entry| entry_view(e))
}

pub open spec fn texts_of(v: Seq<String>) -> Seq<Seq<char>> {
    v.map_values(|s: String| s@)
}

impl Crud {
    pub closed spec fn view(&self) -> Seq<EntryView> {
        views_of(self.model@)
    }

    /// An empty registry.
    pub fn new() -> (c: Crud)
        ensures
            c.view() == Seq::<EntryView>::empty(),
    {
        let c = Crud { model: Vec::new() };
        assert(c.view() =~= Seq::<EntryView>::empty());
        c
    }

    /// The number of entries.
    pub fn len(&self) -> (n: usize)
        ensures
            n == self.view().len(),
    {
        self.model.len()
    }

    fn sort(&mut self)
        ensures
            sorted_from(final(self).view(), old(self).view()),
    {
        let ghost orig = views_of(self.model@);
        let mut rest: Vec<Entry> = Vec::new();
        std::mem::swap(&mut rest, &mut self.model);
        let mut out: Vec<Entry> = Vec::new();
        assert(views_of(out@) =~= Seq::<EntryView>::empty());
        proof {
            views_of(out@).to_multiset_ensures();
        }
        assert(views_of(out@).to_multiset() =~= Multiset::empty());
        while rest.len() > 0
            invariant
                sorted_by(views_of(out@), |a: EntryView, b: EntryView| entry_le(a, b)),
                views_of(out@).to_multiset().add(views_of(rest@).to_multiset()) == orig.to_multiset(),
            decreases rest@.len(),
        {
            let ghost rest_before = views_of(rest@);
            let ghost out_before = views_of(out@);
            let e = rest.pop().unwrap();
            let ghost ev = entry_view(e);
            proof {
                assert(rest_before =~= views_of(rest@).push(ev));
                views_of(rest@).to_multiset_ensures();
            }
            let mut pos: usize = 0;
            while pos < out.len() && !entry_less(&e, &out[pos])
                invariant
                    pos <= out@.len(),
                    views_of(out@) == out_before,
                    ev == entry_view(e),
                    forall|k: int| 0 <= k < pos ==> !#[trigger] entry_lt(ev, out_before[k]),
                decreases out@.len() - pos,
            {
                pos = pos + 1;
            }
            out.insert(pos, e);
            proof {
                let le = |a: EntryView, b: EntryView| entry_le(a, b);
                let now = views_of(out@);
                assert(now =~= out_before.insert(pos as int, ev));
                assert forall|i: int, j: int| 0 <= i < j < now.len() implies #[trigger] le(now[i], now[j]) by {
                    lemma_entry_lt_facts(now[i], now[j]);
                    if i < pos && j == pos {
                        lemma_entry_lt_facts(out_before[i], ev);
                    } else if i == pos && j > pos {
                        assert(now[j] == out_before[j - 1]);
                        if pos < out_before.len() {
                            assert(entry_lt(ev, out_before[pos as int]));
                            assert(le(out_before[pos as int], out_before[j - 1]));
                            if out_before[pos as int] != out_before[j - 1] {
                                lemma_entry_lt_transitive(ev, out_before[pos as int], out_before[j - 1]);
                            }
                        }
                    } else if i < pos && j > pos {
                        assert(le(out_before[i], out_before[j - 1]));
                    } else if j < pos {
                        assert(le(out_before[i], out_before[j]));
                    } else {
                        assert(le(out_before[i - 1], out_before[j - 1]));
                    }
                }
                let left = out_before.subrange(0, pos as int);
                let right = out_before.subrange(pos as int, out_before.len() as int);
                assert(out_before =~= left + right);
                assert(now =~= left.push(ev) + right);
                vstd::seq_lib::lemma_multiset_commutative(left, right);
                vstd::seq_lib::lemma_multiset_commutative(left.push(ev), right);
                left.to_multiset_ensures();
                assert(now.to_multiset() =~= out_before.to_multiset().insert(ev));
                assert(views_of(out@).to_multiset().add(views_of(rest@).to_multiset()) =~= orig.to_multiset());
            }
        }
        assert(views_of(rest@) =~= Seq::<EntryView>::empty());
        proof {
            views_of(rest@).to_multiset_ensures();
        }
        assert(views_of(rest@).to_multiset() =~= Multiset::empty());
        self.model = out;
        assert(views_of(out@).to_multiset() =~= orig.to_multiset());
    }

    /// Sorts the entries and lists those whose field `k` (0: surname,
    /// 1: name), in lower case, starts with the lower-cased prefix.
    pub fn filter(&mut self, prefix: &str, k: usize) -> (lines: Vec<String>)
        requires
            k < 3,
        ensures
            sorted_from(final(self).view(), old(self).view()),
            texts_of(lines@) == listed(final(self).view(), lowercase(prefix@), k as int),
    {
        self.sort();
        let lp = to_lower(prefix);
        let mut lines: Vec<String> = Vec::new();
        let mut i: usize = 0;
        while i < self.model.len()
            invariant
                k < 3,
                lp@ == lowercase(prefix@),
                i <= self.model@.len(),
                texts_of(lines@) == listed(views_of(self.model@).take(i as int), lp@, k as int),
            decreases self.model@.len() - i,
        {
            let ghost vs = views_of(self.model@);
            assert(vs.take(i + 1).drop_last() =~= vs.take(i as int));
            assert(vs.take(i + 1).last() == entry_view(self.model@[i as int]));
            let lf = to_lower(self.model[i][k].as_str());
            assert(lf@ == lowercase(field(entry_view(self.model@[i as int]), k as int)));
            if starts_with(lf.as_str(), lp.as_str()) {
                let line = display_of(&self.model[i]);
                let ghost before = lines@;
                lines.push(line);
                assert(texts_of(lines@) =~= texts_of(before).push(line@));
            }
            i = i + 1;
        }
        assert(views_of(self.model@).take(self.model@.len() as int) =~= views_of(self.model@));
        lines
    }

    /// Adds an entry `[surname, name, secret]` and lists again.
    pub fn create(&mut self, name: &str, surname: &str, secret: &str, prefix: &str, k: usize) -> (lines: Vec<String>)
        requires
            k < 3,
        ensures
            sorted_from(final(self).view(), old(self).view().push((surname@, name@, secret@))),
            texts_of(lines@) == listed(final(self).view(), lowercase(prefix@), k as int),
    {
        let ghost before = self.view();
        self.model.push([surname.to_owned(), name.to_owned(), secret.to_owned()]);
        assert(self.view() =~= before.push((surname@, name@, secret@)));
        self.filter(prefix, k)
    }

    /// The names of the entry at the browser line `value` (counted from 1;
    /// 0 when no line is selected), taken by position in the registry.
    pub fn select(&self, value: usize) -> (r: Option<(String, String, String)>)
        requires
            value <= self.view().len(),
        ensures
            value == 0 ==> r is None,
            value > 0 ==> r is Some && names_of(r->0) == self.view()[value - 1],
    {
        if value == 0 {
            None
        } else {
            let e = &self.model[value - 1];
            Some((e[0].clone(), e[1].clone(), e[2].clone()))
        }
    }

    /// Whether some entry is listed as `line`.
    pub fn lists(&self, line: &str) -> (b: bool)
        ensures
            b == exists|j: int| 0 <= j < self.view().len() && display(#[trigger] self.view()[j]) == line@,
    {
        let mut i: usize = 0;
        while i < self.model.len()
            invariant
                i <= self.model@.len(),
                forall|j: int| 0 <= j < i ==> display(#[trigger] self.view()[j]) != line@,
            decreases self.model@.len() - i,
        {
            let d = display_of(&self.model[i]);
            if same_text(d.as_str(), line) {
                assert(display(self.view()[i as int]) == line@);
                return true;
            }
            i = i + 1;
        }
        false
    }

    fn position(&self, line: &str) -> (i: usize)
        requires
            exists|j: int| 0 <= j < self.view().len() && display(#[trigger] self.view()[j]) == line@,
        ensures
            i < self.view().len(),
            display(self.view()[i as int]) == line@,
            forall|j: int| 0 <= j < i ==> display(#[trigger] self.view()[j]) != line@,
    {
        let mut i: usize = 0;
        while i < self.model.len()
            invariant
                i <= self.model@.len(),
                exists|j: int| 0 <= j < self.view().len() && display(#[trigger] self.view()[j]) == line@,
                forall|j: int| 0 <= j < i ==> display(#[trigger] self.view()[j]) != line@,
            decreases self.model@.len() - i,
        {
            let d = display_of(&self.model[i]);
            if same_text(d.as_str(), line) {
                return i;
            }
            i = i + 1;
        }
        i
    }

    /// The index of the first entry listed as `line`.
    pub open spec fn first_listed_as(entries: Seq<EntryView>, line: Seq<char>) -> int {
        choose|i: int|
            0 <= i < entries.len() && display(entries[i]) == line && forall|j: int|
                0 <= j < i ==> display(#[trigger] entries[j]) != line
    }

    /// Replaces the first entry listed as the selected line by `[surname,
    /// name, secret]` and lists again; nothing happens when a name is empty
    /// or no line is selected.
    pub fn update(
        &mut self,
        name: &str,
        surname: &str,
        secret: &str,
        selected: Option<&str>,
        prefix: &str,
        k: usize,
    ) -> (lines: Option<Vec<String>>)
        requires
            k < 3,
            name@.len() > 0 && surname@.len() > 0 && selected is Some ==> exists|j: int|
                0 <= j < old(self).view().len() && display(#[trigger] old(self).view()[j])
                    == selected->0@,
        ensures
            !(name@.len() > 0 && surname@.len() > 0 && selected is Some) ==> lines is None
                && final(self).view() == old(self).view(),
            name@.len() > 0 && surname@.len() > 0 && selected is Some ==> {
                let i = Self::first_listed_as(old(self).view(), selected->0@);
                &&& lines is Some
                &&& sorted_from(
                    final(self).view(),
                    old(self).view().update(i, (surname@, name@, secret@)),
                )
                &&& texts_of(lines->0@) == listed(final(self).view(), lowercase(prefix@), k as int)
            },
    {
        if name.unicode_len() > 0 && surname.unicode_len() > 0 {
            match selected {
                Some(line) => {
                    let i = self.position(line);
                    let ghost before = self.view();
                    proof {
                        let j = Self::first_listed_as(before, line@);
                        assert(0 <= i < before.len() && display(before[i as int]) == line@ && forall|m: int|
                            0 <= m < i ==> display(#[trigger] before[m]) != line@);
                        if j != i {
                            if j < i {
                                assert(display(before[j]) != line@);
                            } else {
                                assert(display(before[i as int]) != line@);
                            }
                        }
                    }
                    self.model.set(i, [surname.to_owned(), name.to_owned(), secret.to_owned()]);
                    assert(self.view() =~= before.update(i as int, (surname@, name@, secret@)));
                    Some(self.filter(prefix, k))
                },
                None => None,
            }
        } else {
            None
        }
    }

    /// Removes the first entry listed as the selected line and lists
    /// again; nothing happens when no line is selected.
    pub fn delete(&mut self, selected: Option<&str>, prefix: &str, k: usize) -> (lines: Option<Vec<String>>)
        requires
            k < 3,
            selected is Some ==> exists|j: int|
                0 <= j < old(self).view().len() && display(#[trigger] old(self).view()[j])
                    == selected->0@,
        ensures
            selected is None ==> lines is None && final(self).view() == old(self).view(),
            selected is Some ==> {
                let i = Self::first_listed_as(old(self).view(), selected->0@);
                &&& lines is Some
                &&& sorted_from(final(self).view(), old(self).view().remove(i))
                &&& texts_of(lines->0@) == listed(final(self).view(), lowercase(prefix@), k as int)
            },
    {
        match selected {
            Some(line) => {
                let i = self.position(line);
                let ghost before = self.view();
                proof {
                    let j = Self::first_listed_as(before, line@);
                    if j != i {
                        if j < i {
                            assert(display(before[j]) != line@);
                        } else {
                            assert(display(before[i as int]) != line@);
                        }
                    }
                }
                self.model.remove(i);
                assert(self.view() =~= before.remove(i as int));
                Some(self.filter(prefix, k))
            },
            None => None,
        }
    }
}

/// A prefix matches a field exactly when the field is at least as long
/// and agrees with it at every position of the prefix, the last included;
/// a text is matched by each of its own beginnings, and a field matched by
/// a prefix is matched by every shorter beginning of that prefix.
pub proof fn law_prefix_compares_every_byte(p: Seq<u8>, s: Seq<u8>, t: Seq<u8>, j: int)
    ensures
        bytes_prefix(p, s) <==> p.len() <= s.len() && forall|i: int|
            0 <= i < p.len() ==> s[i] == p[i],
        bytes_prefix(p, p + t),
        bytes_prefix(p, s) && 0 <= j <= p.len() ==> bytes_prefix(p.take(j), s),
{
    if p.len() <= s.len() && (forall|i: int| 0 <= i < p.len() ==> s[i] == p[i]) {
        assert(s.take(p.len() as int) =~= p);
    }
    if bytes_prefix(p, s) {
        assert forall|i: int| 0 <= i < p.len() implies s[i] == p[i] by {
            assert(s.take(p.len() as int)[i] == s[i]);
        }
        if 0 <= j <= p.len() {
            assert(s.take(j) =~= p.take(j));
        }
    }
    assert((p + t).take(p.len() as int) =~= p);
}

} // verus!
