//! The cells of a spreadsheet: each cell's text, its parsed formula, and
//! the cells that read it (its subscribers). Values are computed elsewhere
//! from these formulas.
use vstd::prelude::*;
use crate::grammar::{Coord, SpecFormula, Formula, Outcome, formula_of};
use crate::cell_parser::ParseError;
use crate::refs::refs;
use crate::text::chars_of;

verus! {

/// One cell: its text as typed, the formula read from it, and the cells
/// whose formulas read this one.
pub struct Cell {
    pub text: String,
    pub formula: Formula,
    pub subscribers: Vec<Coord>,
}

pub struct CellView {
    pub text: Seq<char>,
    pub formula: SpecFormula,
    pub subscribers: Set<Coord>,
}

impl View for Cell {
    type V = CellView;

    open spec fn view(&self) -> CellView {
        CellView {
            text: self.text@,
            formula: self.formula.spec_view(),
            subscribers: self.subscribers@.to_set(),
        }
    }
}

/// A cell that has never been written.
pub open spec fn blank() -> CellView {
    CellView { text: Seq::empty(), formula: SpecFormula::Empty, subscribers: Set::empty() }
}

/// The cell at `c`, or a blank one.
pub open spec fn cell_or_blank(m: Map<Coord, CellView>, c: Coord) -> CellView {
    if m.contains_key(c) {
        m[c]
    } else {
        blank()
    }
}

/// `who` no longer subscribes to the cells of `s`; cells of `s` that were
/// missing are created blank first.
pub open spec fn unsubscribe_all(m: Map<Coord, CellView>, s: Set<Coord>, who: Coord) -> Map<
    Coord,
    CellView,
> {
    Map::new(
        |c: Coord| m.contains_key(c) || s.contains(c),
        |c: Coord|
            if s.contains(c) {
                CellView {
                    subscribers: cell_or_blank(m, c).subscribers.remove(who),
                    ..cell_or_blank(m, c)
                }
            } else {
                m[c]
            },
    )
}

/// `who` subscribes to the cells of `s`; cells of `s` that were missing are
/// created blank first.
pub open spec fn subscribe_all(m: Map<Coord, CellView>, s: Set<Coord>, who: Coord) -> Map<
    Coord,
    CellView,
> {
    Map::new(
        |c: Coord| m.contains_key(c) || s.contains(c),
        |c: Coord|
            if s.contains(c) {
                CellView {
                    subscribers: cell_or_blank(m, c).subscribers.insert(who),
                    ..cell_or_blank(m, c)
                }
            } else {
                m[c]
            },
    )
}

/// The formula a text stands for; a text that does not parse is `Invalid`.
pub open spec fn formula_or_invalid(text: Seq<char>) -> SpecFormula {
    match formula_of(text) {
        Outcome::Done(_, f) => f,
        _ => SpecFormula::Invalid,
    }
}

/// The sheet after `text` is written into the cell `coord`: the cells that
/// the old formula read lose `coord` as a subscriber, those that the new
/// formula reads gain it, and the cell takes the new text and formula.
pub open spec fn after_set_text(m: Map<Coord, CellView>, coord: Coord, text: Seq<char>) -> Map<
    Coord,
    CellView,
> {
    let old_refs = refs(cell_or_blank(m, coord).formula).to_set();
    let new_formula = formula_or_invalid(text);
    let new_refs = refs(new_formula).to_set();
    let m2 = subscribe_all(unsubscribe_all(m, old_refs, coord), new_refs, coord);
    m2.insert(
        coord,
        CellView { text, formula: new_formula, subscribers: cell_or_blank(m2, coord).subscribers },
    )
}

/// Every cell lists as subscribers exactly the cells whose formulas read
/// it.
pub open spec fn subscriptions_match(m: Map<Coord, CellView>) -> bool {
    forall|c: Coord, d: Coord|
        #[trigger] cell_or_blank(m, d).subscribers.contains(c) <==> #[trigger] refs(
            cell_or_blank(m, c).formula,
        ).contains(d)
}

/// A cell reads back the text written into it and the formula that text
/// stands for.
pub proof fn law_write_then_read(m: Map<Coord, CellView>, coord: Coord, text: Seq<char>)
    ensures
        after_set_text(m, coord, text).contains_key(coord),
        after_set_text(m, coord, text)[coord].text == text,
        after_set_text(m, coord, text)[coord].formula == formula_or_invalid(text),
{
}

/// Writing one cell leaves the text and formula of every other cell as
/// they were.
pub proof fn law_write_is_local(m: Map<Coord, CellView>, coord: Coord, text: Seq<char>, other: Coord)
    requires
        other != coord,
    ensures
        cell_or_blank(after_set_text(m, coord, text), other).text == cell_or_blank(m, other).text,
        cell_or_blank(after_set_text(m, coord, text), other).formula == cell_or_blank(m, other).formula,
{
}

/// An empty sheet has no subscriptions and no references.
pub proof fn law_empty_sheet_matches()
    ensures
        subscriptions_match(Map::<Coord, CellView>::empty()),
{
    assert forall|c: Coord, d: Coord|
        #[trigger] cell_or_blank(Map::<Coord, CellView>::empty(), d).subscribers.contains(c) <==> #[trigger] refs(
            cell_or_blank(Map::<Coord, CellView>::empty(), c).formula,
        ).contains(d) by {
        assert(refs(SpecFormula::Empty) =~= Seq::<Coord>::empty());
    }
}

/// Writing a cell keeps the subscriptions in step with the formulas: the
/// cells the old formula read stop listing it, those the new formula reads
/// list it, and nothing else changes.
pub proof fn law_set_text_keeps_subscriptions(m: Map<Coord, CellView>, coord: Coord, text: Seq<char>)
    requires
        subscriptions_match(m),
    ensures
        subscriptions_match(after_set_text(m, coord, text)),
{
    let old_refs = refs(cell_or_blank(m, coord).formula).to_set();
    let new_formula = formula_or_invalid(text);
    let new_refs = refs(new_formula).to_set();
    let m1 = unsubscribe_all(m, old_refs, coord);
    let m2 = subscribe_all(m1, new_refs, coord);
    let m3 = after_set_text(m, coord, text);
    assert forall|c: Coord, d: Coord|
        #[trigger] cell_or_blank(m3, d).subscribers.contains(c) <==> #[trigger] refs(
            cell_or_blank(m3, c).formula,
        ).contains(d) by {
        // Subscribers of `d` after the write.
        assert(cell_or_blank(m3, d).subscribers == cell_or_blank(m2, d).subscribers);
        let s0 = cell_or_blank(m, d).subscribers;
        let s1 = if old_refs.contains(d) { s0.remove(coord) } else { s0 };
        assert(cell_or_blank(m1, d).subscribers == s1);
        let s2 = if new_refs.contains(d) { s1.insert(coord) } else { s1 };
        assert(cell_or_blank(m2, d).subscribers == s2);
        // Formulas after the write.
        if c == coord {
            assert(cell_or_blank(m3, c).formula == new_formula);
            assert(s0.contains(coord) <==> refs(cell_or_blank(m, coord).formula).contains(d));
        } else {
            assert(cell_or_blank(m1, c).formula == cell_or_blank(m, c).formula);
            assert(cell_or_blank(m2, c).formula == cell_or_blank(m1, c).formula);
            assert(cell_or_blank(m3, c).formula == cell_or_blank(m, c).formula);
            assert(s0.contains(c) <==> refs(cell_or_blank(m, c).formula).contains(d));
        }
    }
}

/// The first position of `x` in `v`.
fn index_in(v: &Vec<Coord>, x: Coord) -> (r: Option<usize>)
    ensures
        match r {
            Some(k) => k < v@.len() && v@[k as int] == x,
            None => !v@.contains(x),
        },
{
    let mut k: usize = 0;
    while k < v.len()
        invariant
            k <= v@.len(),
            forall|m: int| 0 <= m < k ==> v@[m] != x,
        decreases v@.len() - k,
    {
        if v[k] == x {
            return Some(k);
        }
        k = k + 1;
    }
    None
}

/// The cells of a sheet. Cells that were never written or read are absent
/// and read as blank.
pub struct Spreadsheet {
    coords: Vec<Coord>,
    cells: Vec<Cell>,
    default_cell: Cell,
}

impl View for Spreadsheet {
    type V = Map<Coord, CellView>;

    closed spec fn view(&self) -> Map<Coord, CellView> {
        Map::new(
            |c: Coord| self.coords@.contains(c),
            |c: Coord| self.cells@[self.coords@.index_of(c)]@,
        )
    }
}

impl Spreadsheet {
    pub closed spec fn well_formed(&self) -> bool {
        &&& self.coords@.len() == self.cells@.len()
        &&& self.coords@.no_duplicates()
        &&& forall|i: int| 0 <= i < self.cells@.len() ==> #[trigger] self.cells@[i].subscribers@.no_duplicates()
        &&& self.default_cell@ == blank()
    }

    proof fn lemma_view_at(&self, i: int)
        requires
            self.well_formed(),
            0 <= i < self.coords@.len(),
        ensures
            self@.contains_key(self.coords@[i]),
            self@[self.coords@[i]] == self.cells@[i]@,
    {
        let c = self.coords@[i];
        assert(self.coords@.contains(c));
        let j = self.coords@.index_of(c);
        assert(0 <= j < self.coords@.len() && self.coords@[j] == c);
        assert(j == i);
    }

    /// An empty sheet.
    pub fn new() -> (s: Spreadsheet)
        ensures
            s.well_formed(),
            s@ == Map::<Coord, CellView>::empty(),
    {
        let s = Spreadsheet {
            coords: Vec::new(),
            cells: Vec::new(),
            default_cell: Cell { text: String::new(), formula: Formula::Empty, subscribers: Vec::new() },
        };
        proof {
            assert(s.default_cell.subscribers@.to_set() =~= Set::<Coord>::empty());
        }
        assert(s@ =~= Map::<Coord, CellView>::empty());
        s
    }

    fn position(&self, c: Coord) -> (r: Option<usize>)
        requires
            self.well_formed(),
        ensures
            match r {
                Some(i) => i < self.coords@.len() && self.coords@[i as int] == c,
                None => !self.coords@.contains(c),
            },
    {
        let mut i: usize = 0;
        while i < self.coords.len()
            invariant
                i <= self.coords@.len(),
                forall|k: int| 0 <= k < i ==> self.coords@[k] != c,
            decreases self.coords@.len() - i,
        {
            if self.coords[i] == c {
                return Some(i);
            }
            i = i + 1;
        }
        None
    }

    /// The cell at `coord`, if it was ever written or read.
    pub fn get(&self, coord: Coord) -> (r: Option<&Cell>)
        requires
            self.well_formed(),
        ensures
            match r {
                Some(cell) => self@.contains_key(coord) && cell@ == self@[coord],
                None => !self@.contains_key(coord),
            },
    {
        match self.position(coord) {
            Some(i) => {
                proof {
                    self.lemma_view_at(i as int);
                }
                Some(&self.cells[i])
            },
            None => None,
        }
    }

    /// The cell at `coord`, or a blank cell.
    pub fn cell(&self, coord: Coord) -> (r: &Cell)
        requires
            self.well_formed(),
        ensures
            r@ == cell_or_blank(self@, coord),
    {
        match self.position(coord) {
            Some(i) => {
                proof {
                    self.lemma_view_at(i as int);
                }
                &self.cells[i]
            },
            None => &self.default_cell,
        }
    }

    /// The index of the cell at `c`, created blank when missing.
    fn entry(&mut self, c: Coord) -> (i: usize)
        requires
            old(self).well_formed(),
        ensures
            final(self).well_formed(),
            i < final(self).coords@.len(),
            final(self).coords@[i as int] == c,
            final(self)@ == if old(self)@.contains_key(c) {
                old(self)@
            } else {
                old(self)@.insert(c, blank())
            },
    {
        match self.position(c) {
            Some(i) => i,
            None => {
                let ghost before = self@;
                self.coords.push(c);
                self.cells.push(
                    Cell { text: String::new(), formula: Formula::Empty, subscribers: Vec::new() },
                );
                let i = self.coords.len() - 1;
                proof {
                    let n = self.coords@.len() - 1;
                    assert(self.cells@[n].subscribers@.to_set() =~= Set::<Coord>::empty());
                    assert forall|a: int, b: int|
                        0 <= a < self.coords@.len() && 0 <= b < self.coords@.len() && a != b
                        implies self.coords@[a] != self.coords@[b] by {
                        if a == n {
                            assert(old(self).coords@.contains(self.coords@[b]));
                        } else if b == n {
                            assert(old(self).coords@.contains(self.coords@[a]));
                        }
                    }
                    assert forall|k: int| 0 <= k < self.cells@.len() implies #[trigger] self.cells@[k].subscribers@.no_duplicates() by {
                        if k < n {
                            assert(self.cells@[k] == old(self).cells@[k]);
                        }
                    }
                    assert forall|x: Coord| #[trigger] self@.contains_key(x) == before.insert(c, blank()).contains_key(x) by {
                        if x != c {
                            if self.coords@.contains(x) {
                                let k = self.coords@.index_of(x);
                                assert(self.coords@[k] == x);
                                assert(k != n);
                                assert(old(self).coords@[k] == x);
                            }
                            if old(self).coords@.contains(x) {
                                let k = old(self).coords@.index_of(x);
                                assert(self.coords@[k] == x);
                            }
                        } else {
                            assert(self.coords@[n] == c);
                        }
                    }
                    assert forall|x: Coord| #[trigger] self@.contains_key(x) implies self@[x] == before.insert(c, blank())[x] by {
                        if x == c {
                            self.lemma_view_at(n);
                        } else {
                            let k = self.coords@.index_of(x);
                            self.lemma_view_at(k);
                            assert(k != n);
                            old(self).lemma_view_at(k);
                        }
                    }
                    assert(self@ =~= before.insert(c, blank()));
                }
                i
            },
        }
    }

    /// `who` stops subscribing to the cell at `c`, which is created blank
    /// when missing.
    fn remove_subscriber(&mut self, c: Coord, who: Coord)
        requires
            old(self).well_formed(),
        ensures
            final(self).well_formed(),
            final(self)@ == old(self)@.insert(
                c,
                CellView {
                    subscribers: cell_or_blank(old(self)@, c).subscribers.remove(who),
                    ..cell_or_blank(old(self)@, c)
                },
            ),
    {
        let ghost before = self@;
        let i = self.entry(c);
        let ghost mid = self@;
        proof {
            self.lemma_view_at(i as int);
            assert(mid[c] == cell_or_blank(before, c));
        }
        let n = self.cells[i].subscribers.len();
        let k = match index_in(&self.cells[i].subscribers, who) {
            Some(k) => k,
            None => n,
        };
        assert(self.cells@[i as int].subscribers@.no_duplicates());
        let ghost old_cells = self.cells@;
        if k < n {
            let ghost subs = self.cells@[i as int].subscribers@;
            self.cells[i].subscribers.remove(k);
            proof {
                let after = subs.remove(k as int);
                assert(self.cells@[i as int].subscribers@ == after);
                assert forall|a: int, b: int| 0 <= a < after.len() && 0 <= b < after.len() && a != b implies after[a] != after[b] by {
                    let a2 = if a < k { a } else { a + 1 };
                    let b2 = if b < k { b } else { b + 1 };
                    assert(after[a] == subs[a2]);
                    assert(after[b] == subs[b2]);
                }
                assert forall|x: Coord| #[trigger] after.to_set().contains(x) == subs.to_set().remove(who).contains(x) by {
                    if after.contains(x) {
                        let m = after.index_of(x);
                        if m < k {
                            assert(subs[m] == x);
                        } else {
                            assert(subs[m + 1] == x);
                        }
                    }
                    if x != who && subs.contains(x) {
                        let m = subs.index_of(x);
                        if m < k {
                            assert(after[m] == x);
                        } else {
                            assert(m != k);
                            assert(after[m - 1] == x);
                        }
                    }
                }
                assert(after.to_set() =~= subs.to_set().remove(who));
            }
        } else {
            proof {
                let subs = self.cells@[i as int].subscribers@;
                assert(!subs.contains(who));
                assert(subs.to_set().remove(who) =~= subs.to_set());
            }
        }
        proof {
            assert forall|m: int| 0 <= m < self.cells@.len() implies #[trigger] self.cells@[m].subscribers@.no_duplicates() by {
                if m != i {
                    assert(self.cells@[m] == old_cells[m]);
                }
            }
            assert forall|x: Coord| #[trigger] self@.contains_key(x) implies self@[x] == mid.insert(c, CellView { subscribers: mid[c].subscribers.remove(who), ..mid[c] })[x] by {
                let m = self.coords@.index_of(x);
                self.lemma_view_at(m);
                if x != c {
                    assert(m != i);
                    assert(self.cells@[m] == old_cells[m]);
                }
            }
            assert(self@ =~= mid.insert(c, CellView { subscribers: mid[c].subscribers.remove(who), ..mid[c] }));
        }
    }

    /// `who` subscribes to the cell at `c`, which is created blank when
    /// missing.
    fn add_subscriber(&mut self, c: Coord, who: Coord)
        requires
            old(self).well_formed(),
        ensures
            final(self).well_formed(),
            final(self)@ == old(self)@.insert(
                c,
                CellView {
                    subscribers: cell_or_blank(old(self)@, c).subscribers.insert(who),
                    ..cell_or_blank(old(self)@, c)
                },
            ),
    {
        let ghost before = self@;
        let i = self.entry(c);
        let ghost mid = self@;
        proof {
            self.lemma_view_at(i as int);
            assert(mid[c] == cell_or_blank(before, c));
        }
        let n = self.cells[i].subscribers.len();
        let k = match index_in(&self.cells[i].subscribers, who) {
            Some(k) => k,
            None => n,
        };
        assert(self.cells@[i as int].subscribers@.no_duplicates());
        let ghost old_cells = self.cells@;
        let ghost subs = self.cells@[i as int].subscribers@;
        if k < n {
            proof {
                assert(subs[k as int] == who);
                assert(subs.to_set().contains(who));
                assert(subs.to_set().insert(who) =~= subs.to_set());
            }
        } else {
            self.cells[i].subscribers.push(who);
            proof {
                let after = subs.push(who);
                assert(self.cells@[i as int].subscribers@ == after);
                assert(!subs.contains(who));
                assert forall|a: int, b: int| 0 <= a < after.len() && 0 <= b < after.len() && a != b implies after[a] != after[b] by {
                    if a == subs.len() {
                        assert(subs.contains(after[b]));
                    } else if b == subs.len() {
                        assert(subs.contains(after[a]));
                    }
                }
                assert forall|x: Coord| #[trigger] after.to_set().contains(x) == subs.to_set().insert(who).contains(x) by {
                    if subs.contains(x) {
                        let m = subs.index_of(x);
                        assert(after[m] == x);
                    }
                    if x == who {
                        assert(after[subs.len() as int] == who);
                    }
                    if after.contains(x) && x != who {
                        let m = after.index_of(x);
                        assert(m < subs.len());
                        assert(subs[m] == x);
                    }
                }
                assert(after.to_set() =~= subs.to_set().insert(who));
            }
        }
        proof {
            assert forall|m: int| 0 <= m < self.cells@.len() implies #[trigger] self.cells@[m].subscribers@.no_duplicates() by {
                if m != i {
                    assert(self.cells@[m] == old_cells[m]);
                }
            }
            assert forall|x: Coord| #[trigger] self@.contains_key(x) implies self@[x] == mid.insert(c, CellView { subscribers: mid[c].subscribers.insert(who), ..mid[c] })[x] by {
                let m = self.coords@.index_of(x);
                self.lemma_view_at(m);
                if x != c {
                    assert(m != i);
                    assert(self.cells@[m] == old_cells[m]);
                }
            }
            assert(self@ =~= mid.insert(c, CellView { subscribers: mid[c].subscribers.insert(who), ..mid[c] }));
        }
    }

    /// Writes `text` into the cell at `coord` (see `after_set_text`). A text
    /// that does not parse gives the formula `Invalid`.
    pub fn set_text(&mut self, coord: Coord, text: &str)
        requires
            old(self).well_formed(),
            !(formula_of(text@) is Overflow),
        ensures
            final(self).well_formed(),
            final(self)@ == after_set_text(old(self)@, coord, text@),
    {
        let ghost m0 = self@;
        let new_formula = match Formula::parse(text) {
            Ok((_, f)) => f,
            Err(_) => Formula::Invalid,
        };
        assert(new_formula.spec_view() == formula_or_invalid(text@));
        let old_refs = self.cell(coord).formula.references();
        let new_refs = new_formula.references();
        let ghost old_set = old_refs@.to_set();
        let ghost new_set = new_refs@.to_set();
        let mut k: usize = 0;
        assert(old_refs@.take(0).to_set() =~= Set::<Coord>::empty());
        assert(unsubscribe_all(m0, Set::empty(), coord) =~= m0);
        while k < old_refs.len()
            invariant
                self.well_formed(),
                k <= old_refs@.len(),
                self@ == unsubscribe_all(m0, old_refs@.take(k as int).to_set(), coord),
            decreases old_refs@.len() - k,
        {
            let ghost before = self@;
            self.remove_subscriber(old_refs[k], coord);
            proof {
                let sset = old_refs@.take(k as int).to_set();
                assert(old_refs@.take(k + 1).to_set() =~= sset.insert(old_refs@[k as int])) by {
                    assert(old_refs@.take(k + 1) =~= old_refs@.take(k as int).push(old_refs@[k as int]));
                    lemma_push_to_set(old_refs@.take(k as int), old_refs@[k as int]);
                }
                lemma_unsubscribe_step(m0, sset, old_refs@[k as int], coord);
            }
            k = k + 1;
        }
        assert(old_refs@.take(old_refs@.len() as int) =~= old_refs@);
        let ghost m1 = self@;
        let mut k: usize = 0;
        assert(new_refs@.take(0).to_set() =~= Set::<Coord>::empty());
        assert(subscribe_all(m1, Set::empty(), coord) =~= m1);
        while k < new_refs.len()
            invariant
                self.well_formed(),
                k <= new_refs@.len(),
                self@ == subscribe_all(m1, new_refs@.take(k as int).to_set(), coord),
            decreases new_refs@.len() - k,
        {
            self.add_subscriber(new_refs[k], coord);
            proof {
                let sset = new_refs@.take(k as int).to_set();
                assert(new_refs@.take(k + 1).to_set() =~= sset.insert(new_refs@[k as int])) by {
                    assert(new_refs@.take(k + 1) =~= new_refs@.take(k as int).push(new_refs@[k as int]));
                    lemma_push_to_set(new_refs@.take(k as int), new_refs@[k as int]);
                }
                lemma_subscribe_step(m1, sset, new_refs@[k as int], coord);
            }
            k = k + 1;
        }
        assert(new_refs@.take(new_refs@.len() as int) =~= new_refs@);
        let ghost m2 = self@;
        let i = self.entry(coord);
        proof {
            self.lemma_view_at(i as int);
        }
        let ghost old_cells = self.cells@;
        let ghost m3 = self@;
        self.cells[i].text = text.to_owned();
        self.cells[i].formula = new_formula;
        proof {
            assert forall|m: int| 0 <= m < self.cells@.len() implies #[trigger] self.cells@[m].subscribers@.no_duplicates() by {
                if m != i {
                    assert(self.cells@[m] == old_cells[m]);
                } else {
                    assert(old_cells[m].subscribers@.no_duplicates());
                }
            }
            let target = after_set_text(m0, coord, text@);
            assert(m2 == subscribe_all(unsubscribe_all(m0, old_set, coord), new_set, coord));
            assert forall|x: Coord| #[trigger] self@.contains_key(x) == target.contains_key(x) by {
                if x != coord {
                    assert(m3.contains_key(x) == m2.contains_key(x));
                }
            }
            assert forall|x: Coord| #[trigger] self@.contains_key(x) implies self@[x] == target[x] by {
                let m = self.coords@.index_of(x);
                self.lemma_view_at(m);
                if x != coord {
                    assert(m != i);
                    assert(self.cells@[m] == old_cells[m]);
                    assert(m3[x] == m2[x]);
                } else {
                    assert(m == i);
                }
            }
            assert(self@ =~= target);
        }
    }
}

proof fn lemma_push_to_set(s: Seq<Coord>, x: Coord)
    ensures
        s.push(x).to_set() =~= s.to_set().insert(x),
{
    assert forall|y: Coord| #[trigger] s.push(x).to_set().contains(y) == s.to_set().insert(x).contains(y) by {
        if s.contains(y) {
            let m = s.index_of(y);
            assert(s.push(x)[m] == y);
        }
        if y == x {
            assert(s.push(x)[s.len() as int] == x);
        }
        if s.push(x).contains(y) && y != x {
            let m = s.push(x).index_of(y);
            assert(m < s.len());
            assert(s[m] == y);
        }
    }
}

proof fn lemma_unsubscribe_step(m: Map<Coord, CellView>, s: Set<Coord>, c: Coord, who: Coord)
    ensures
        ({
            let u = unsubscribe_all(m, s, who);
            unsubscribe_all(m, s.insert(c), who) == u.insert(
                c,
                CellView {
                    subscribers: cell_or_blank(u, c).subscribers.remove(who),
                    ..cell_or_blank(u, c)
                },
            )
        }),
{
    let u = unsubscribe_all(m, s, who);
    let lhs = unsubscribe_all(m, s.insert(c), who);
    let rhs = u.insert(
        c,
        CellView { subscribers: cell_or_blank(u, c).subscribers.remove(who), ..cell_or_blank(u, c) },
    );
    assert(cell_or_blank(u, c).subscribers.remove(who) =~= cell_or_blank(m, c).subscribers.remove(who));
    assert(lhs =~= rhs);
}

proof fn lemma_subscribe_step(m: Map<Coord, CellView>, s: Set<Coord>, c: Coord, who: Coord)
    ensures
        ({
            let u = subscribe_all(m, s, who);
            subscribe_all(m, s.insert(c), who) == u.insert(
                c,
                CellView {
                    subscribers: cell_or_blank(u, c).subscribers.insert(who),
                    ..cell_or_blank(u, c)
                },
            )
        }),
{
    let u = subscribe_all(m, s, who);
    let lhs = subscribe_all(m, s.insert(c), who);
    let rhs = u.insert(
        c,
        CellView { subscribers: cell_or_blank(u, c).subscribers.insert(who), ..cell_or_blank(u, c) },
    );
    assert(cell_or_blank(u, c).subscribers.insert(who) =~= cell_or_blank(m, c).subscribers.insert(who));
    assert(lhs =~= rhs);
}

} // verus!
