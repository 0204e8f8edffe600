//! Decisions of the translator front ends: when to translate, what a
//! dropped file path is, how the languages are switched and shown.
use vstd::prelude::*;
use vstd::string::StringExecFns;
use crate::editor::{replace_all, replaced};
use crate::shell::{trim, trimmed};
use crate::text::{chars_of, same_chars};

verus! {

/// A file dropped on the source box: the dropped text trimmed, with every
/// `file://` removed.
pub open spec fn dropped_path_of(text: Seq<char>) -> Seq<char> {
    replaced(trimmed(text), "file://"@, Seq::empty())
}

pub fn dropped_path(text: &str) -> (r: String)
    ensures
        r@ == dropped_path_of(text@),
{
    let t = trim(text);
    proof {
        reveal_strlit("");
    }
    assert(""@ =~= Seq::<char>::empty());
    replace_all(t.as_str(), "file://", "")
}

/// A translation is asked for only between two different languages and
/// for a text that is not empty.
pub fn can_translate(from: &str, to: &str, source: &str) -> (b: bool)
    ensures
        b == (from@ != to@ && source@.len() > 0),
{
    let f = chars_of(from);
    let t = chars_of(to);
    !same_chars(&f, t.as_slice()) && source.unicode_len() > 0
}

/// The languages after "switch": exchanged when they differ.
pub fn switch_languages(from: String, to: String) -> (r: (String, String))
    ensures
        from@ != to@ ==> r.0@ == to@ && r.1@ == from@,
        from@ == to@ ==> r.0@ == from@ && r.1@ == to@,
{
    let f = chars_of(from.as_str());
    let t = chars_of(to.as_str());
    if !same_chars(&f, t.as_slice()) {
        (to, from)
    } else {
        (from, to)
    }
}

/// The window title naming the two languages.
pub open spec fn title_of(from: Seq<char>, to: Seq<char>, name: Seq<char>) -> Seq<char> {
    "Translate"@ + " from "@ + from + " to "@ + to + " - "@ + name
}

pub fn title(from: &str, to: &str, name: &str) -> (r: String)
    ensures
        r@ == title_of(from@, to@, name@),
{
    let mut r = String::new();
    r.append("Translate");
    r.append(" from ");
    r.append(from);
    r.append(" to ");
    r.append(to);
    r.append(" - ");
    r.append(name);
    r
}

/// The two text boxes stand one above the other in a window taller than
/// wide, side by side otherwise.
pub fn stacked(width: i32, height: i32) -> (b: bool)
    ensures
        b == (width < height),
{
    width < height
}

/// Where the splitter between the two text boxes, dragged to `pointer`,
/// puts the first box's edge: the layout begins at `start` and is `length`
/// long along its axis, and the splitter is `thickness` thick. The new
/// size of the first box is `pointer - start`, when the pointer lies
/// between the layout's start and its end less the splitter.
pub open spec fn splitter_size_of(start: int, length: int, thickness: int, pointer: int) -> Option<int> {
    if start <= pointer <= length + start - thickness {
        Some(pointer - start)
    } else {
        None
    }
}

/// The first box's new size for a drag of the splitter, as
/// `splitter_size_of` gives it; `None` leaves the boxes as they are.
pub fn splitter_size(start: i32, length: i32, thickness: i32, pointer: i32) -> (r: Option<i32>)
    requires
        i32::MIN <= length + start <= i32::MAX,
        i32::MIN <= length + start - thickness <= i32::MAX,
        start <= pointer <= length + start - thickness ==> pointer - start <= i32::MAX,
    ensures
        r == match splitter_size_of(start as int, length as int, thickness as int, pointer as int) {
            Some(n) => Some(n as i32),
            None => None::<i32>,
        },
{
    let end = length + start - thickness;
    if start <= pointer && pointer <= end {
        Some(pointer - start)
    } else {
        None
    }
}

/// The language pair of the web translator, as indices into its list.
#[derive(Debug, Clone, Copy, PartialEq, Eq, Structural)]
pub struct Pair {
    pub from: i32,
    pub to: i32,
}

/// The pair with its languages exchanged.
pub open spec fn switched(p: Pair) -> Pair {
    Pair { from: p.to, to: p.from }
}

impl Pair {
    /// A translation is asked for only between two different languages of
    /// the list and for a text that is not empty.
    pub fn can_translate(&self, source: &str) -> (b: bool)
        ensures
            b == (self.from != self.to && source@.len() > 0),
    {
        self.from != self.to && source.unicode_len() > 0
    }

    /// Exchanges the two languages.
    pub fn switch(&mut self)
        ensures
            *final(self) == switched(*old(self)),
    {
        let f = self.from;
        self.from = self.to;
        self.to = f;
    }
}

/// The address of a translation request: the service's base, then the
/// source and target language codes and the text, separated by `/`.
pub open spec fn request_url_of(base: Seq<char>, source: Seq<char>, target: Seq<char>, query: Seq<char>) -> Seq<char> {
    base + "/"@ + source + "/"@ + target + "/"@ + query
}

pub fn request_url(base: &str, source: &str, target: &str, query: &str) -> (r: String)
    ensures
        r@ == request_url_of(base@, source@, target@, query@),
{
    let mut r = String::new();
    r.append(base);
    r.append("/");
    r.append(source);
    r.append("/");
    r.append(target);
    r.append("/");
    r.append(query);
    r
}

/// What the source box has seen of a drag and drop: whether one entered
/// it and whether it was released there.
#[derive(Debug, Clone, Copy, PartialEq, Eq, Structural)]
pub struct DropState {
    pub entered: bool,
    pub released: bool,
}

/// The events of a drag and drop on the source box; `Other` is any other
/// event.
#[derive(Debug, Clone, Copy, PartialEq, Eq, Structural)]
pub enum DropEvent {
    Enter,
    Drag,
    Release,
    Paste,
    Leave,
    Other,
}

/// The outcome of one event: the new state, whether the box takes the
/// event, and whether the dropped text is to be read as a file's path.
#[derive(Debug, Clone, Copy, PartialEq, Eq, Structural)]
pub struct DropStep {
    pub state: DropState,
    pub handled: bool,
    pub load: bool,
}

/// No drag and drop under way.
pub open spec fn idle() -> DropState {
    DropState { entered: false, released: false }
}

/// A drop is read only when a paste follows an entry and a release; a
/// paste that does so, and a leave, start over.
pub open spec fn drop_next(s: DropState, e: DropEvent) -> DropStep {
    match e {
        DropEvent::Enter => DropStep { state: DropState { entered: true, ..s }, handled: true, load: false },
        DropEvent::Drag => DropStep { state: s, handled: true, load: false },
        DropEvent::Release => DropStep { state: DropState { released: true, ..s }, handled: true, load: false },
        DropEvent::Paste => if s.entered && s.released {
            DropStep { state: idle(), handled: true, load: true }
        } else {
            DropStep { state: s, handled: false, load: false }
        },
        DropEvent::Leave => DropStep { state: idle(), handled: true, load: false },
        DropEvent::Other => DropStep { state: s, handled: false, load: false },
    }
}

/// The source box's answer to one drag-and-drop event.
pub fn drop_step(s: DropState, e: DropEvent) -> (r: DropStep)
    ensures
        r == drop_next(s, e),
{
    let idle = DropState { entered: false, released: false };
    match e {
        DropEvent::Enter => DropStep { state: DropState { entered: true, released: s.released }, handled: true, load: false },
        DropEvent::Drag => DropStep { state: s, handled: true, load: false },
        DropEvent::Release => DropStep { state: DropState { entered: s.entered, released: true }, handled: true, load: false },
        DropEvent::Paste => if s.entered && s.released {
            DropStep { state: idle, handled: true, load: true }
        } else {
            DropStep { state: s, handled: false, load: false }
        },
        DropEvent::Leave => DropStep { state: idle, handled: true, load: false },
        DropEvent::Other => DropStep { state: s, handled: false, load: false },
    }
}

/// A paste is read as a dropped file only after an entry and a release:
/// from no drag and drop, entering, then releasing, then pasting loads and
/// starts over, while a paste alone is left to the box's other handling.
pub proof fn law_paste_loads_only_after_drop(s: DropState)
    ensures
        !drop_next(idle(), DropEvent::Paste).load,
        drop_next(drop_next(drop_next(s, DropEvent::Enter).state, DropEvent::Release).state, DropEvent::Paste)
            == (DropStep { state: idle(), handled: true, load: true }),
        drop_next(s, DropEvent::Paste).load ==> drop_next(s, DropEvent::Paste).state == idle(),
{
}

/// Switching twice gives back the pair.
pub proof fn law_switch_twice(p: Pair)
    ensures
        switched(switched(p)) == p,
{
}

} // verus!
