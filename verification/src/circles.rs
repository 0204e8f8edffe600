//! The circle drawer: a set of circles keyed by their centre, with an undo
//! history of snapshots.
use vstd::prelude::*;

verus! {

/// A circle centre on the canvas.
pub type Coord = (i32, i32);

/// A circle radius.
pub type Radius = i32;

/// Circles keyed by centre; no centre occurs twice.
pub struct CircleSet {
    entries: Vec<(Coord, Radius)>,
}

/// The radius stored for each centre of a list of entries, the later
/// entry winning.
pub open spec fn entries_map(s: Seq<(Coord, Radius)>) -> Map<Coord, Radius>
    decreases s.len(),
{
    if s.len() == 0 {
        Map::empty()
    } else {
        entries_map(s.drop_last()).insert(s.last().0, s.last().1)
    }
}

/// No centre occurs twice.
pub open spec fn distinct_centres(s: Seq<(Coord, Radius)>) -> bool {
    forall|a: int, b: int| 0 <= a < b < s.len() ==> #[trigger] s[a].0 != #[trigger] s[b].0
}

proof fn lemma_entries_map_dom(s: Seq<(Coord, Radius)>)
    requires
        distinct_centres(s),
    ensures
        forall|k: int| 0 <= k < s.len() ==> #[trigger] entries_map(s).contains_key(s[k].0)
            && entries_map(s)[s[k].0] == s[k].1,
        forall|c: Coord| #[trigger] entries_map(s).contains_key(c) ==> exists|k: int|
            0 <= k < s.len() && s[k].0 == c,
        entries_map(s).dom().finite(),
        entries_map(s).dom().len() == s.len(),
    decreases s.len(),
{
    if s.len() > 0 {
        let t = s.drop_last();
        assert forall|a: int, b: int| 0 <= a < b < t.len() implies #[trigger] t[a].0 != #[trigger] t[b].0 by {
            assert(s[a] == t[a] && s[b] == t[b]);
        }
        lemma_entries_map_dom(t);
        assert(!entries_map(t).contains_key(s.last().0)) by {
            if entries_map(t).contains_key(s.last().0) {
                let k = choose|k: int| 0 <= k < t.len() && t[k].0 == s.last().0;
                assert(s[k].0 == s[s.len() - 1].0);
            }
        }
        assert forall|k: int| 0 <= k < s.len() implies #[trigger] entries_map(s).contains_key(s[k].0)
            && entries_map(s)[s[k].0] == s[k].1 by {
            if k < s.len() - 1 {
                assert(s[k] == t[k]);
                assert(s[k].0 != s[s.len() - 1].0);
            }
        }
        assert forall|c: Coord| #[trigger] entries_map(s).contains_key(c) implies exists|k: int|
            0 <= k < s.len() && s[k].0 == c by {
            if c != s.last().0 {
                assert(entries_map(t).contains_key(c));
                let k = choose|k: int| 0 <= k < t.len() && t[k].0 == c;
                assert(s[k] == t[k]);
            } else {
                assert(s[s.len() - 1].0 == c);
            }
        }
    }
}

impl View for CircleSet {
    type V = Map<Coord, Radius>;

    closed spec fn view(&self) -> Map<Coord, Radius> {
        entries_map(self.entries@)
    }
}

impl CircleSet {
    /// The set is well formed: no centre occurs twice.
    pub closed spec fn wf(&self) -> bool {
        distinct_centres(self.entries@)
    }

    /// No circles.
    pub fn new() -> (s: CircleSet)
        ensures
            s.wf(),
            s@ == Map::<Coord, Radius>::empty(),
    {
        CircleSet { entries: Vec::new() }
    }

    /// The number of circles.
    pub fn len(&self) -> (n: usize)
        requires
            self.wf(),
        ensures
            n == self@.dom().len(),
    {
        proof {
            lemma_entries_map_dom(self.entries@);
        }
        self.entries.len()
    }

    /// The radius of the circle centred at `c`, if there is one.
    pub fn get(&self, c: Coord) -> (r: Option<Radius>)
        requires
            self.wf(),
        ensures
            r == (if self@.contains_key(c) { Some(self@[c]) } else { None::<Radius> }),
    {
        proof {
            lemma_entries_map_dom(self.entries@);
        }
        let mut k: usize = 0;
        while k < self.entries.len()
            invariant
                k <= self.entries@.len(),
                distinct_centres(self.entries@),
                forall|m: int| 0 <= m < k ==> #[trigger] self.entries@[m].0 != c,
            decreases self.entries@.len() - k,
        {
            let e = self.entries[k];
            if e.0.0 == c.0 && e.0.1 == c.1 {
                proof {
                    lemma_entries_map_dom(self.entries@);
                    assert(self.entries@[k as int].0 == c);
                }
                return Some(e.1);
            }
            k = k + 1;
        }
        proof {
            if self@.contains_key(c) {
                let m = choose|m: int| 0 <= m < self.entries@.len() && self.entries@[m].0 == c;
                assert(self.entries@[m].0 == c);
            }
        }
        None
    }

    /// The circles in the order they are listed.
    pub closed spec fn listing(&self) -> Seq<(Coord, Radius)> {
        self.entries@
    }

    /// The listing names each circle of the set once, with its radius.
    pub proof fn lemma_listing(&self)
        requires
            self.wf(),
        ensures
            self.listing().len() == self@.dom().len(),
            distinct_centres(self.listing()),
            forall|k: int| 0 <= k < self.listing().len() ==> #[trigger] self@.contains_key(self.listing()[k].0)
                && self@[self.listing()[k].0] == self.listing()[k].1,
            forall|c: Coord| #[trigger] self@.contains_key(c) ==> exists|k: int|
                0 <= k < self.listing().len() && self.listing()[k].0 == c,
    {
        lemma_entries_map_dom(self.entries@);
    }

    /// The circle at position `k` of the listing.
    pub fn entry(&self, k: usize) -> (e: (Coord, Radius))
        requires
            self.wf(),
            k < self@.dom().len(),
        ensures
            e == self.listing()[k as int],
            self@.contains_key(e.0),
            self@[e.0] == e.1,
    {
        proof {
            lemma_entries_map_dom(self.entries@);
        }
        self.entries[k]
    }

    /// Adds a circle, or changes the radius of the circle at that centre.
    pub fn insert(&mut self, c: Coord, r: Radius)
        requires
            old(self).wf(),
        ensures
            final(self).wf(),
            final(self)@ == old(self)@.insert(c, r),
    {
        proof {
            lemma_entries_map_dom(self.entries@);
        }
        let ghost before = self.entries@;
        let mut k: usize = 0;
        while k < self.entries.len()
            invariant
                k <= self.entries@.len(),
                self.entries@ == before,
                before == old(self).entries@,
                distinct_centres(before),
                forall|m: int| 0 <= m < k ==> #[trigger] self.entries@[m].0 != c,
            decreases self.entries@.len() - k,
        {
            let e = self.entries[k];
            if e.0.0 == c.0 && e.0.1 == c.1 {
                self.entries.set(k, (c, r));
                proof {
                    lemma_entries_map_dom(before);
                    let after = self.entries@;
                    assert(after == before.update(k as int, (c, r)));
                    assert forall|a: int, b: int| 0 <= a < b < after.len() implies #[trigger] after[a].0
                        != #[trigger] after[b].0 by {
                        assert(before[a].0 == after[a].0 && before[b].0 == after[b].0);
                    }
                    lemma_entries_map_dom(after);
                    assert forall|x: Coord| #[trigger] entries_map(after).contains_key(x) <==> old(
                        self,
                    )@.insert(c, r).contains_key(x) by {
                        if entries_map(after).contains_key(x) {
                            let m = choose|m: int| 0 <= m < after.len() && after[m].0 == x;
                            if x != c {
                                assert(m != k);
                                assert(before[m].0 == x);
                                assert(entries_map(before).contains_key(before[m].0));
                            }
                        }
                        if old(self)@.insert(c, r).contains_key(x) {
                            if x != c {
                                assert(entries_map(before).contains_key(x));
                                let m = choose|m: int| 0 <= m < before.len() && before[m].0 == x;
                                assert(m != k);
                                assert(after[m].0 == x);
                                assert(entries_map(after).contains_key(after[m].0));
                            } else {
                                assert(after[k as int].0 == c);
                                assert(entries_map(after).contains_key(after[k as int].0));
                            }
                        }
                    }
                    assert forall|x: Coord| #[trigger] entries_map(after).contains_key(x) implies entries_map(
                        after,
                    )[x] == old(self)@.insert(c, r)[x] by {
                        let m = choose|m: int| 0 <= m < after.len() && after[m].0 == x;
                        assert(entries_map(after)[after[m].0] == after[m].1);
                        if x != c {
                            assert(before[m] == after[m]);
                        }
                    }
                    assert(entries_map(after) =~= old(self)@.insert(c, r));
                }
                return;
            }
            k = k + 1;
        }
        self.entries.push((c, r));
        proof {
            let after = self.entries@;
            assert(after.drop_last() =~= before);
            assert forall|a: int, b: int| 0 <= a < b < after.len() implies #[trigger] after[a].0
                != #[trigger] after[b].0 by {
                if b < before.len() {
                    assert(before[a] == after[a] && before[b] == after[b]);
                } else {
                    assert(after[a] == before[a]);
                }
            }
        }
    }

    /// A copy of the set.
    pub fn copy(&self) -> (s: CircleSet)
        requires
            self.wf(),
        ensures
            s.wf(),
            s@ == self@,
    {
        let mut entries: Vec<(Coord, Radius)> = Vec::new();
        let mut k: usize = 0;
        while k < self.entries.len()
            invariant
                k <= self.entries@.len(),
                entries@ == self.entries@.take(k as int),
            decreases self.entries@.len() - k,
        {
            entries.push(self.entries[k]);
            k = k + 1;
            assert(entries@ =~= self.entries@.take(k as int));
        }
        assert(entries@ =~= self.entries@);
        CircleSet { entries }
    }
}

/// The abstract state of the drawer: the snapshots, oldest first, and the
/// index of the one on show.
pub struct History {
    pub states: Seq<Map<Coord, Radius>>,
    pub index: nat,
}

pub open spec fn valid_history(h: History) -> bool {
    h.index < h.states.len()
}

/// After "save": later snapshots are dropped and a copy of the current one
/// becomes the current one.
pub open spec fn after_save(h: History) -> History {
    History {
        states: h.states.take(h.index + 1int).push(h.states[h.index as int]),
        index: h.index + 1,
    }
}

pub open spec fn after_undo(h: History) -> History {
    History { states: h.states, index: (h.index - 1) as nat }
}

pub open spec fn after_redo(h: History) -> History {
    History { states: h.states, index: h.index + 1 }
}

/// After setting a circle: the current snapshot gets it, the others stay.
pub open spec fn after_set(h: History, c: Coord, r: Radius) -> History {
    History {
        states: h.states.update(h.index as int, h.states[h.index as int].insert(c, r)),
        index: h.index,
    }
}

/// The circles on show.
pub open spec fn shown(h: History) -> Map<Coord, Radius> {
    h.states[h.index as int]
}

/// The drawer's model: snapshots of the circles and the index of the one
/// on show.
pub struct Model {
    states: Vec<CircleSet>,
    current_state_index: usize,
}

impl Model {
    pub closed spec fn view(&self) -> History {
        History {
            states: Seq::new(self.states@.len(), |k: int| self.states@[k]@),
            index: self.current_state_index as nat,
        }
    }

    /// The model is well formed: the index points at a snapshot and every
    /// snapshot is a well-formed set.
    pub closed spec fn wf(&self) -> bool {
        &&& self.current_state_index < self.states@.len()
        &&& forall|k: int| 0 <= k < self.states@.len() ==> #[trigger] self.states@[k].wf()
    }

    /// In a well-formed model the snapshot on show exists: its history is
    /// valid.
    pub proof fn lemma_wf_history(&self)
        requires
            self.wf(),
        ensures
            valid_history(self.view()),
    {
    }

    /// One empty snapshot.
    pub fn build() -> (m: Model)
        ensures
            m.wf(),
            m.view().states == seq![Map::<Coord, Radius>::empty()],
            m.view().index == 0,
    {
        let mut states: Vec<CircleSet> = Vec::new();
        states.push(CircleSet::new());
        let m = Model { states, current_state_index: 0 };
        assert(m.view().states =~= seq![Map::<Coord, Radius>::empty()]);
        m
    }

    /// Starts a new snapshot: the snapshots after the current one are
    /// dropped and a copy of the current one is pushed and shown.
    pub fn save(&mut self)
        requires
            old(self).wf(),
        ensures
            final(self).wf(),
            final(self).view() == after_save(old(self).view()),
    {
        let ghost h = self.view();
        while self.current_state_index < self.states.len() - 1
            invariant
                self.current_state_index == old(self).current_state_index,
                self.current_state_index < self.states@.len() <= old(self).states@.len(),
                self.states@ == old(self).states@.take(self.states@.len() as int),
                forall|k: int| 0 <= k < self.states@.len() ==> #[trigger] self.states@[k].wf(),
            decreases self.states@.len(),
        {
            self.states.pop();
            assert(self.states@ =~= old(self).states@.take(self.states@.len() as int));
        }
        let copy = self.states[self.current_state_index].copy();
        self.states.push(copy);
        self.current_state_index = self.current_state_index + 1;
        assert(self.view().states =~= after_save(h).states);
    }

    /// Whether there is an earlier snapshot.
    pub fn can_undo(&self) -> (b: bool)
        ensures
            b == (self.view().index > 0),
    {
        self.current_state_index > 0
    }

    /// Whether there is a later snapshot.
    pub fn can_redo(&self) -> (b: bool)
        requires
            self.wf(),
        ensures
            b == (self.view().index + 1 < self.view().states.len()),
    {
        self.current_state_index < self.states.len() - 1
    }

    /// Shows the previous snapshot.
    pub fn undo(&mut self)
        requires
            old(self).wf(),
            old(self).view().index > 0,
        ensures
            final(self).wf(),
            final(self).view() == after_undo(old(self).view()),
    {
        self.current_state_index = self.current_state_index - 1;
    }

    /// Shows the next snapshot.
    pub fn redo(&mut self)
        requires
            old(self).wf(),
            old(self).view().index + 1 < old(self).view().states.len(),
        ensures
            final(self).wf(),
            final(self).view() == after_redo(old(self).view()),
    {
        let n = self.states.len();
        assert(self.current_state_index + 1 < n);
        self.current_state_index = self.current_state_index + 1;
    }

    /// Adds a circle to the snapshot on show, or changes its radius.
    pub fn set(&mut self, coord: Coord, radius: Radius)
        requires
            old(self).wf(),
        ensures
            final(self).wf(),
            final(self).view() == after_set(old(self).view(), coord, radius),
    {
        let ghost h = self.view();
        let i = self.current_state_index;
        let mut cur = self.states[i].copy();
        cur.insert(coord, radius);
        self.states.set(i, cur);
        assert(self.view().states =~= after_set(h, coord, radius).states);
    }

    /// The circles on show.
    pub fn circles(&self) -> (c: &CircleSet)
        requires
            self.wf(),
        ensures
            c.wf(),
            c@ == shown(self.view()),
    {
        &self.states[self.current_state_index]
    }
}

/// Under the pointer: among the circles that contain it (their distance
/// to the pointer at most their radius), the nearest, the first listed
/// among equally near ones. Each candidate comes with its distance to the
/// pointer.
pub fn nearest_hit(candidates: &Vec<(Coord, Radius, i32)>) -> (r: Option<(Coord, Radius)>)
    ensures
        r is None <==> forall|k: int|
            0 <= k < candidates@.len() ==> #[trigger] candidates@[k].2 > candidates@[k].1,
        r is Some ==> exists|k: int|
            0 <= k < candidates@.len() && candidates@[k].2 <= candidates@[k].1 && r == Some(
                (candidates@[k].0, candidates@[k].1),
            ) && (forall|m: int|
                0 <= m < candidates@.len() && #[trigger] candidates@[m].2 <= candidates@[m].1 ==> candidates@[k].2
                    <= candidates@[m].2) && (forall|m: int|
                0 <= m < k && #[trigger] candidates@[m].2 <= candidates@[m].1 ==> candidates@[k].2
                    < candidates@[m].2),
{
    let mut best: Option<usize> = None;
    let mut k: usize = 0;
    while k < candidates.len()
        invariant
            k <= candidates@.len(),
            best is None <==> forall|m: int| 0 <= m < k ==> #[trigger] candidates@[m].2 > candidates@[m].1,
            best is Some ==> {
                let b = best->0 as int;
                &&& 0 <= b < k
                &&& candidates@[b].2 <= candidates@[b].1
                &&& forall|m: int|
                    0 <= m < k && #[trigger] candidates@[m].2 <= candidates@[m].1 ==> candidates@[b].2
                        <= candidates@[m].2
                &&& forall|m: int|
                    0 <= m < b && #[trigger] candidates@[m].2 <= candidates@[m].1 ==> candidates@[b].2
                        < candidates@[m].2
            },
        decreases candidates@.len() - k,
    {
        let c = candidates[k];
        if c.2 <= c.1 {
            match best {
                None => {
                    best = Some(k);
                },
                Some(b) => {
                    if c.2 < candidates[b].2 {
                        best = Some(k);
                    }
                },
            }
        }
        k = k + 1;
    }
    match best {
        None => None,
        Some(b) => {
            let c = candidates[b];
            Some((c.0, c.1))
        },
    }
}

/// Undoing and then redoing comes back to the same state.
pub proof fn law_undo_then_redo(h: History)
    requires
        valid_history(h),
        h.index > 0,
    ensures
        after_redo(after_undo(h)) == h,
{
}

/// Redoing and then undoing comes back to the same state.
pub proof fn law_redo_then_undo(h: History)
    requires
        valid_history(h),
        h.index + 1 < h.states.len(),
    ensures
        after_undo(after_redo(h)) == h,
{
}

/// After a save, nothing is left to redo, and undo is possible.
pub proof fn law_save_clears_redo(h: History)
    requires
        valid_history(h),
    ensures
        valid_history(after_save(h)),
        after_save(h).index + 1 == after_save(h).states.len(),
        after_save(h).index > 0,
        shown(after_save(h)) == shown(h),
{
}

/// Saving, changing circles, then undoing shows the circles from before
/// the save.
pub proof fn law_undo_reverts_changes(h: History, c: Coord, r: Radius, c2: Coord, r2: Radius)
    requires
        valid_history(h),
    ensures
        shown(after_undo(after_set(after_set(after_save(h), c, r), c2, r2))) == shown(h),
        shown(after_undo(after_set(after_save(h), c, r))) == shown(h),
{
}

/// Setting a circle changes only the snapshot on show, and shows the new
/// radius at that centre.
pub proof fn law_set_is_local(h: History, c: Coord, r: Radius)
    requires
        valid_history(h),
    ensures
        shown(after_set(h, c, r)) == shown(h).insert(c, r),
        forall|k: int|
            0 <= k < h.states.len() && k != h.index ==> #[trigger] after_set(h, c, r).states[k]
                == h.states[k],
        after_set(h, c, r).states.len() == h.states.len(),
{
}

/// On a model with an earlier snapshot, undo leaves a later snapshot to
/// redo, and redoing then gives back the history from before the undo.
pub proof fn law_model_undo_then_redo(m: Model)
    requires
        m.wf(),
        m.view().index > 0,
    ensures
        valid_history(after_undo(m.view())),
        after_undo(m.view()).index + 1 < after_undo(m.view()).states.len(),
        after_redo(after_undo(m.view())) == m.view(),
{
    m.lemma_wf_history();
}

} // verus!
