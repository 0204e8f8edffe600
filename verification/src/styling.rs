//! Style buffers for syntax colouring: one style letter per byte of the
//! text, `'A'` for the first entry of the style table, `'B'` for the
//! second, and so on.
use vstd::prelude::*;
use crate::text::{char_from_code, string_of};
use vstd::string::StringSliceAdditionalSpecFns;
use json_tools::{Buffer, BufferType, Lexer, TokenType as T};
use self::JsonTokenKind as K;

verus! {

/// The style letter of the highlight at `idx`: `'A'` for the first. The
/// index is taken as a `u32`.
pub fn translate_style(idx: usize) -> (c: char)
    requires
        (idx as u32) + 65 <= 0xD7FF || 0xE000 <= (idx as u32) + 65 <= 0x10FFFF,
    ensures
        c as u32 == (idx as u32) + 65,
{
    let code: u32 = 65 + idx as u32;
    match char_from_code(code) {
        Some(c) => c,
        None => {
            assert(false);
            'A'
        },
    }
}

// ---------------------------------------------------------------------
// Syntax highlighting events

/// What a syntax highlighter reports while it walks a text: a highlight
/// starts (with its index in the style table), a range of bytes is
/// covered, or the highlight ends.
#[derive(Debug, Clone, Copy, PartialEq, Eq, Structural)]
pub enum HighlightEvent {
    Start(usize),
    Source { start: usize, end: usize },
    End,
}

/// The style letter of highlight `idx`.
pub open spec fn style_letter(idx: nat) -> char {
    (idx + 65) as char
}

/// The highlight in force and the style letters after some events, on a
/// text of `n` bytes that starts all `'A'`.
pub open spec fn after_events(events: Seq<HighlightEvent>, n: nat) -> (nat, Seq<char>)
    decreases events.len(),
{
    if events.len() == 0 {
        (0, Seq::new(n, |i: int| 'A'))
    } else {
        let (curr, buf) = after_events(events.drop_last(), n);
        match events.last() {
            HighlightEvent::Start(s) => (s as nat, buf),
            HighlightEvent::End => (0, buf),
            HighlightEvent::Source { start, end } => (
                curr,
                Seq::new(buf.len(), |i: int| if start <= i < end { style_letter(curr) } else { buf[i] }),
            ),
        }
    }
}

/// Events that name a style the table can letter in one byte and ranges
/// inside the text.
pub open spec fn events_fit(events: Seq<HighlightEvent>, n: nat) -> bool {
    forall|k: int|
        0 <= k < events.len() ==> match #[trigger] events[k] {
            HighlightEvent::Start(s) => s < 62,
            HighlightEvent::Source { start, end } => start <= end <= n,
            HighlightEvent::End => true,
        }
}

/// The style text for a text of `n` bytes: each range the highlighter
/// reports gets the letter of the highlight in force.
pub fn apply_highlights(n: usize, events: &Vec<HighlightEvent>) -> (r: String)
    requires
        events_fit(events@, n as nat),
    ensures
        r@ == after_events(events@, n as nat).1,
{
    let mut buf: Vec<char> = Vec::new();
    let mut k: usize = 0;
    while k < n
        invariant
            k <= n,
            buf@ == Seq::new(k as nat, |i: int| 'A'),
        decreases n - k,
    {
        buf.push('A');
        k = k + 1;
        assert(buf@ =~= Seq::new(k as nat, |i: int| 'A'));
    }
    let mut curr: usize = 0;
    let mut j: usize = 0;
    while j < events.len()
        invariant
            j <= events@.len(),
            events_fit(events@, n as nat),
            buf@.len() == n,
            curr < 62,
            (curr as nat, buf@) == after_events(events@.take(j as int), n as nat),
        decreases events@.len() - j,
    {
        let ghost before = buf@;
        assert(events@.take(j + 1).drop_last() =~= events@.take(j as int));
        assert(events@.take(j + 1).last() == events@[j as int]);
        match events[j] {
            HighlightEvent::Start(s) => {
                assert(s < 62);
                curr = s;
            },
            HighlightEvent::End => {
                curr = 0;
            },
            HighlightEvent::Source { start, end } => {
                let c = translate_style(curr);
                assert(c == style_letter(curr as nat));
                let mut i = start;
                while i < end
                    invariant
                        start <= i <= end <= buf@.len(),
                        buf@.len() == before.len(),
                        forall|m: int|
                            0 <= m < buf@.len() ==> #[trigger] buf@[m] == if start <= m < i {
                                c
                            } else {
                                before[m]
                            },
                    decreases end - i,
                {
                    buf.set(i, c);
                    i = i + 1;
                }
                assert(buf@ =~= Seq::new(
                    before.len(),
                    |m: int| if start <= m < end { style_letter(curr as nat) } else { before[m] },
                ));
            },
        }
        j = j + 1;
    }
    assert(events@.take(events@.len() as int) =~= events@);
    string_of(&buf, 0, buf.len())
}

// ---------------------------------------------------------------------
// JSON responses

/// The kinds of token that the JSON lexer tells apart.
#[derive(Debug, Clone, Copy, PartialEq, Eq, Structural)]
pub enum JsonTokenKind {
    CurlyOpen,
    CurlyClose,
    BracketOpen,
    BracketClose,
    Colon,
    Comma,
    Str,
    BooleanTrue,
    BooleanFalse,
    Number,
    Null,
    Invalid,
}

/// A token of the JSON lexer: its kind and, when the lexer reports one,
/// the byte range `first..end` it covers.
#[derive(Debug, Clone, Copy)]
pub struct JsonToken {
    pub kind: JsonTokenKind,
    pub span: Option<(u64, u64)>,
}

/// The tokens that `json_tools::Lexer` yields, in order, for a byte string
/// read with span buffers.
pub uninterp spec fn json_lexer_tokens(bytes: Seq<u8>) -> Seq<JsonToken>;

/// Runs the JSON lexer over the bytes of a text.
///
/// Trusted: `json_tools::Lexer::new(s.bytes(), BufferType::Span)`, each
/// token taken by its kind and its span (none for a byte buffer). The
/// contract claims that the tokens are those named by `json_lexer_tokens`.
#[verifier::external_body]
fn lex_json(s: &str) -> (r: Vec<JsonToken>)
    ensures
        r@ == json_lexer_tokens(s.spec_bytes()),
{
    Lexer::new(s.bytes(), BufferType::Span).map(|t| JsonToken {
        kind: match t.kind {
            T::CurlyOpen => K::CurlyOpen, T::CurlyClose => K::CurlyClose,
            T::BracketOpen => K::BracketOpen, T::BracketClose => K::BracketClose,
            T::Colon => K::Colon, T::Comma => K::Comma, T::String => K::Str,
            T::BooleanTrue => K::BooleanTrue, T::BooleanFalse => K::BooleanFalse,
            T::Number => K::Number, T::Null => K::Null, T::Invalid => K::Invalid,
        },
        span: match t.buf { Buffer::Span(sp) => Some((sp.first, sp.end)), Buffer::MultiByte(_) => None },
    }).collect()
}

/// The style letter of a token: punctuation and invalid input `'A'`,
/// strings `'B'`, literals `'C'`, numbers `'D'`.
pub open spec fn style_class(k: JsonTokenKind) -> char {
    match k {
        JsonTokenKind::Str => 'B',
        JsonTokenKind::BooleanTrue | JsonTokenKind::BooleanFalse | JsonTokenKind::Null => 'C',
        JsonTokenKind::Number => 'D',
        _ => 'A',
    }
}

/// The style letters after painting the range of one token.
pub open spec fn painted(buf: Seq<char>, t: JsonToken) -> Seq<char> {
    match t.span {
        Some((f, e)) => if f <= e <= buf.len() {
            Seq::new(buf.len(), |i: int| if f <= i < e { style_class(t.kind) } else { buf[i] })
        } else {
            buf
        },
        None => buf,
    }
}

/// The style letters of a text of `n` bytes after painting its tokens in
/// order, starting from all `'A'`.
pub open spec fn styled(tokens: Seq<JsonToken>, n: nat) -> Seq<char>
    decreases tokens.len(),
{
    if tokens.len() == 0 {
        Seq::new(n, |i: int| 'A')
    } else {
        painted(styled(tokens.drop_last(), n), tokens.last())
    }
}

fn style_class_of(k: JsonTokenKind) -> (c: char)
    ensures
        c == style_class(k),
{
    match k {
        JsonTokenKind::Str => 'B',
        JsonTokenKind::BooleanTrue | JsonTokenKind::BooleanFalse | JsonTokenKind::Null => 'C',
        JsonTokenKind::Number => 'D',
        _ => 'A',
    }
}

/// The style text of a JSON document: one letter per byte, painted token
/// by token as the lexer finds them.
pub fn json_styles(s: &str) -> (r: String)
    ensures
        r@ == styled(json_lexer_tokens(s.spec_bytes()), s.spec_bytes().len()),
{
    let n = s.as_bytes().len();
    let tokens = lex_json(s);
    let mut buf: Vec<char> = Vec::new();
    let mut k: usize = 0;
    while k < n
        invariant
            k <= n,
            buf@ == Seq::new(k as nat, |i: int| 'A'),
        decreases n - k,
    {
        buf.push('A');
        k = k + 1;
        assert(buf@ =~= Seq::new(k as nat, |i: int| 'A'));
    }
    let mut j: usize = 0;
    while j < tokens.len()
        invariant
            j <= tokens@.len(),
            n == s.spec_bytes().len(),
            tokens@ == json_lexer_tokens(s.spec_bytes()),
            buf@.len() == n,
            buf@ == styled(tokens@.take(j as int), n as nat),
        decreases tokens@.len() - j,
    {
        let t = tokens[j];
        let ghost before = buf@;
        assert(tokens@.take(j + 1).drop_last() =~= tokens@.take(j as int));
        assert(tokens@.take(j + 1).last() == t);
        if let Some((f, e)) = t.span {
            if f <= e && e <= n as u64 {
                assert(e <= buf@.len());
                let c = style_class_of(t.kind);
                let mut i: usize = f as usize;
                while i < e as usize
                    invariant
                        f <= i <= e <= buf@.len(),
                        buf@.len() == before.len(),
                        forall|m: int|
                            0 <= m < buf@.len() ==> #[trigger] buf@[m] == if f <= m < i {
                                c
                            } else {
                                before[m]
                            },
                    decreases e - i,
                {
                    buf.set(i, c);
                    i = i + 1;
                }
                assert(buf@ =~= painted(before, t));
            }
        }
        j = j + 1;
        assert(buf@ =~= styled(tokens@.take(j as int), n as nat));
    }
    assert(tokens@.take(tokens@.len() as int) =~= tokens@);
    string_of(&buf, 0, buf.len())
}

/// The style text has one letter per byte of the JSON text.
pub proof fn law_one_letter_per_byte(tokens: Seq<JsonToken>, n: nat)
    ensures
        styled(tokens, n).len() == n,
    decreases tokens.len(),
{
    if tokens.len() > 0 {
        law_one_letter_per_byte(tokens.drop_last(), n);
    }
}

/// Highlighting keeps one letter per byte of the text.
pub proof fn law_highlights_keep_length(events: Seq<HighlightEvent>, n: nat)
    ensures
        after_events(events, n).1.len() == n,
    decreases events.len(),
{
    if events.len() > 0 {
        law_highlights_keep_length(events.drop_last(), n);
    }
}

} // verus!
