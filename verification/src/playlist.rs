//! Cursors over lists of files: the music player's playlist and the picture
//! viewer's gallery. Moving past either end wraps around.
use vstd::prelude::*;

verus! {

/// The position after "next" among `len` items: one further, or back to
/// the first from the last (or from a position past the end).
pub open spec fn next_pos(curr: nat, len: nat) -> nat {
    if curr + 1 < len { curr + 1 } else { 0 }
}

/// The position after "previous" among `len` items: one back, or to the
/// last from the first.
pub open spec fn prev_pos(curr: nat, len: nat) -> nat {
    if curr > 0 { (curr - 1) as nat } else { (len - 1) as nat }
}

fn step_next(curr: usize, len: usize) -> (r: usize)
    requires
        len > 0,
    ensures
        r == next_pos(curr as nat, len as nat),
{
    if curr < len - 1 {
        curr + 1
    } else {
        0
    }
}

fn step_prev(curr: usize, len: usize) -> (r: usize)
    requires
        len > 0,
    ensures
        r == prev_pos(curr as nat, len as nat),
{
    if curr > 0 {
        curr - 1
    } else {
        len - 1
    }
}

/// The music player's list of tracks and the track it is on.
pub struct Model {
    pub list: Vec<String>,
    pub curr: usize,
}

impl Model {
    /// An empty playlist.
    pub fn new() -> (m: Model)
        ensures
            m.list@.len() == 0,
            m.curr == 0,
    {
        Model { list: Vec::new(), curr: 0 }
    }

    /// Goes to track `idx`, if there is one.
    pub fn choice(&mut self, idx: usize)
        ensures
            final(self).list@ == old(self).list@,
            final(self).curr == if idx < old(self).list@.len() {
                idx
            } else {
                old(self).curr
            },
    {
        if idx < self.list.len() {
            self.curr = idx;
        }
    }

    /// Goes to the next track, from the last back to the first.
    pub fn inc(&mut self)
        ensures
            final(self).list@ == old(self).list@,
            old(self).list@.len() == 0 ==> final(self).curr == old(self).curr,
            old(self).list@.len() > 0 ==> final(self).curr == next_pos(
                old(self).curr as nat,
                old(self).list@.len(),
            ),
    {
        if self.list.len() > 0 {
            self.curr = step_next(self.curr, self.list.len());
            let c = self.curr;
            self.choice(c);
        }
    }

    /// Goes to the previous track, from the first to the last.
    pub fn dec(&mut self)
        ensures
            final(self).list@ == old(self).list@,
            old(self).list@.len() == 0 ==> final(self).curr == old(self).curr,
            old(self).list@.len() > 0 ==> final(self).curr == prev_pos(
                old(self).curr as nat,
                old(self).list@.len(),
            ),
    {
        if self.list.len() > 0 {
            self.curr = step_prev(self.curr, self.list.len());
            let c = self.curr;
            self.choice(c);
        }
    }

    /// Drops the current track from the list and goes on to the next one.
    pub fn remove(&mut self)
        requires
            old(self).curr < old(self).list@.len(),
        ensures
            final(self).list@ == old(self).list@.remove(old(self).curr as int),
            final(self).list@.len() == 0 ==> final(self).curr == old(self).curr,
            final(self).list@.len() > 0 ==> final(self).curr == next_pos(
                old(self).curr as nat,
                final(self).list@.len(),
            ),
    {
        self.list.remove(self.curr);
        self.inc();
    }
}

/// The picture viewer's list of files, the picture on show and the zoom in
/// percent.
pub struct Gallery {
    pub temp: Vec<String>,
    pub curr: usize,
    pub size: i32,
}

impl Gallery {
    /// No pictures, at full size.
    pub fn new() -> (g: Gallery)
        ensures
            g.temp@.len() == 0,
            g.curr == 0,
            g.size == 100,
    {
        Gallery { temp: Vec::new(), curr: 0, size: 100 }
    }

    /// Whether there is no picture.
    pub fn empty(&self) -> (b: bool)
        ensures
            b == (self.temp@.len() == 0),
    {
        self.temp.len() == 0
    }

    /// Shows picture `curr` if it could be had (it is cached, or it loads).
    pub fn choice(&mut self, curr: usize, available: bool)
        requires
            curr < old(self).temp@.len(),
        ensures
            final(self).temp@ == old(self).temp@,
            final(self).size == old(self).size,
            final(self).curr == if available { curr } else { old(self).curr },
    {
        if available {
            self.curr = curr;
        }
    }

    /// Moves to the next picture, from the last back to the first. The new
    /// position holds whether or not its picture loads.
    pub fn inc(&mut self)
        ensures
            final(self).temp@ == old(self).temp@,
            final(self).size == old(self).size,
            old(self).temp@.len() == 0 ==> final(self).curr == old(self).curr,
            old(self).temp@.len() > 0 ==> final(self).curr == next_pos(
                old(self).curr as nat,
                old(self).temp@.len(),
            ),
    {
        if self.temp.len() > 0 {
            self.curr = step_next(self.curr, self.temp.len());
        }
    }

    /// Moves to the previous picture, from the first to the last.
    pub fn dec(&mut self)
        ensures
            final(self).temp@ == old(self).temp@,
            final(self).size == old(self).size,
            old(self).temp@.len() == 0 ==> final(self).curr == old(self).curr,
            old(self).temp@.len() > 0 ==> final(self).curr == prev_pos(
                old(self).curr as nat,
                old(self).temp@.len(),
            ),
    {
        if self.temp.len() > 0 {
            self.curr = step_prev(self.curr, self.temp.len());
        }
    }

    /// Drops the picture on show and moves on to the next one.
    pub fn remove(&mut self)
        requires
            old(self).curr < old(self).temp@.len(),
        ensures
            final(self).temp@ == old(self).temp@.remove(old(self).curr as int),
            final(self).size == old(self).size,
            final(self).temp@.len() == 0 ==> final(self).curr == old(self).curr,
            final(self).temp@.len() > 0 ==> final(self).curr == next_pos(
                old(self).curr as nat,
                final(self).temp@.len(),
            ),
    {
        self.temp.remove(self.curr);
        self.inc();
    }

    /// A length scaled by the zoom: `len * size / 100`, rounded toward
    /// zero.
    pub fn scaled(&self, len: i32) -> (r: i32)
        requires
            i32::MIN <= len * self.size <= i32::MAX,
        ensures
            r == trunc_div(len * self.size, 100),
    {
        len * self.size / 100
    }
}

/// Integer division rounded toward zero, as Rust divides.
pub open spec fn trunc_div(a: int, b: int) -> int {
    if a >= 0 { a / b } else { -((-a) / b) }
}

/// The picture pager: the pictures of a folder and the one on show.
pub struct Viewer {
    pub images: Vec<String>,
    pub pos: usize,
}

/// The first position of `file` among `images`, or 0 when it is not there.
pub open spec fn position_or_first(images: Seq<String>, file: Seq<char>) -> nat {
    if exists|k: int| 0 <= k < images.len() && #[trigger] images[k]@ == file {
        let k = choose|k: int|
            0 <= k < images.len() && images[k]@ == file && forall|m: int|
                0 <= m < k ==> #[trigger] images[m]@ != file;
        k as nat
    } else {
        0
    }
}

impl Viewer {
    /// The pager over `images`, on `file` when it is one of them, else on
    /// the first.
    pub fn load(images: Vec<String>, file: &str) -> (v: Viewer)
        ensures
            v.images@ == images@,
            v.pos == position_or_first(images@, file@),
    {
        let f = crate::text::chars_of(file);
        let mut k: usize = 0;
        while k < images.len()
            invariant
                k <= images@.len(),
                f@ == file@,
                forall|m: int| 0 <= m < k ==> #[trigger] images@[m]@ != file@,
            decreases images@.len() - k,
        {
            let c = crate::text::chars_of(images[k].as_str());
            if crate::text::same_chars(&c, f.as_slice()) {
                proof {
                    let w = choose|w: int|
                        0 <= w < images@.len() && images@[w]@ == file@ && forall|m: int|
                            0 <= m < w ==> #[trigger] images@[m]@ != file@;
                    if w < k {
                        assert(images@[w]@ != file@);
                    } else if w > k {
                        assert(images@[k as int]@ != file@);
                    }
                }
                return Viewer { images, pos: k };
            }
            k = k + 1;
        }
        Viewer { images, pos: 0 }
    }

    /// The next picture, from the last back to the first.
    pub fn next(&mut self)
        requires
            old(self).images@.len() > 0,
        ensures
            final(self).images@ == old(self).images@,
            final(self).pos == next_pos(old(self).pos as nat, old(self).images@.len()),
    {
        self.pos = step_next(self.pos, self.images.len());
    }

    /// The previous picture, from the first to the last.
    pub fn prev(&mut self)
        requires
            old(self).images@.len() > 0,
        ensures
            final(self).images@ == old(self).images@,
            final(self).pos == prev_pos(old(self).pos as nat, old(self).images@.len()),
    {
        self.pos = step_prev(self.pos, self.images.len());
    }

    /// Drops the picture on show after its file is deleted, and moves on to
    /// the next one when pictures remain; tells whether any remain.
    pub fn remove(&mut self) -> (left: bool)
        requires
            old(self).pos < old(self).images@.len(),
        ensures
            final(self).images@ == old(self).images@.remove(old(self).pos as int),
            left == (final(self).images@.len() > 0),
            left ==> final(self).pos == next_pos(old(self).pos as nat, final(self).images@.len()),
            !left ==> final(self).pos == old(self).pos,
    {
        self.images.remove(self.pos);
        if self.images.len() > 0 {
            self.next();
            true
        } else {
            false
        }
    }
}

/// From a track inside the list, "next" and then "previous" come back to it.
pub proof fn law_next_then_prev(curr: nat, len: nat)
    requires
        curr < len,
    ensures
        prev_pos(next_pos(curr, len), len) == curr,
{
}

/// From a track inside the list, "previous" and then "next" come back to it.
pub proof fn law_prev_then_next(curr: nat, len: nat)
    requires
        curr < len,
    ensures
        next_pos(prev_pos(curr, len), len) == curr,
{
}

/// "Next" and "previous" keep the position inside a non-empty list.
pub proof fn law_steps_stay_in_list(curr: nat, len: nat)
    requires
        len > 0,
    ensures
        next_pos(curr, len) < len,
        curr <= len ==> prev_pos(curr, len) < len,
{
}

} // verus!
