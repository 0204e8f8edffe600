//! The keypad of the calculator: what each key does to the number being
//! typed and to the pending operation. The arithmetic itself is done by
//! the caller on the step that a key returns.
use vstd::prelude::*;
use vstd::string::StringExecFns;
use vstd::utf8::encode_utf8;
use crate::text::{chars_of, push_char, string_of};

verus! {

/// The operation a key names.
#[derive(Debug, Clone, Copy, PartialEq, Eq, Structural)]
pub enum Op {
    Div,
    Mul,
    Add,
    Sub,
    /// `prev / 100 * current`, for `%` and anything else.
    Percent,
}

pub open spec fn op_of(s: Seq<char>) -> Op {
    if s == seq!['/'] {
        Op::Div
    } else if s == seq!['x'] {
        Op::Mul
    } else if s == seq!['+'] {
        Op::Add
    } else if s == seq!['-'] {
        Op::Sub
    } else {
        Op::Percent
    }
}

/// The operator keys.
pub open spec fn is_operator(s: Seq<char>) -> bool {
    s == seq!['/'] || s == seq!['x'] || s == seq!['+'] || s == seq!['-'] || s == seq!['%']
}

/// What the caller computes after a key.
#[derive(Debug, PartialEq, Eq)]
pub enum Step {
    /// Nothing to compute.
    Nothing,
    /// An operator after the first operand: the operand becomes the
    /// previous value; then the log gets the previous value and the key.
    Load { operand: String, key: String },
    /// An operator after a pending operation: the pending operation is
    /// applied to the previous value and the operand; then the log gets
    /// the previous value and the key.
    ApplyThenLog { operand: String, op: Op, key: String },
    /// "=": the pending operation is applied to the previous value and the
    /// operand.
    Apply { operand: String, op: Op },
    /// "CE": the log is emptied and the previous value is zero.
    ClearAll,
}

pub open spec fn zero() -> Seq<char> {
    seq!['0']
}

/// The number being typed after a key other than an operator, "=" or
/// "CE".
pub open spec fn typed(current: Seq<char>, key: Seq<char>) -> Seq<char> {
    if key == seq!['@', '<', '-'] {
        if encode_utf8(current).len() > 1 {
            current.drop_last()
        } else {
            zero()
        }
    } else if key == seq!['C'] {
        zero()
    } else if key == seq!['.'] {
        if current.contains('.') {
            current
        } else {
            current.push('.')
        }
    } else {
        (if current == zero() { Seq::empty() } else { current }) + key
    }
}

proof fn lemma_one_char_keys_differ(a: char, b: char)
    requires
        a != b,
    ensures
        seq![a] != seq![b],
{
    assert(seq![a][0] != seq![b][0]);
}

fn is_key1(v: &Vec<char>, a: char) -> (b: bool)
    ensures
        b == (v@ == seq![a]),
{
    if v.len() == 1 && v[0] == a {
        assert(v@ =~= seq![a]);
        true
    } else {
        proof {
            if v@ == seq![a] {
                assert(v@[0] == a);
            }
        }
        false
    }
}

fn is_key2(v: &Vec<char>, a: char, b: char) -> (r: bool)
    ensures
        r == (v@ == seq![a, b]),
{
    if v.len() == 2 && v[0] == a && v[1] == b {
        assert(v@ =~= seq![a, b]);
        true
    } else {
        proof {
            if v@ == seq![a, b] {
                assert(v@[0] == a && v@[1] == b);
            }
        }
        false
    }
}

fn is_key3(v: &Vec<char>, a: char, b: char, c: char) -> (r: bool)
    ensures
        r == (v@ == seq![a, b, c]),
{
    if v.len() == 3 && v[0] == a && v[1] == b && v[2] == c {
        assert(v@ =~= seq![a, b, c]);
        true
    } else {
        proof {
            if v@ == seq![a, b, c] {
                assert(v@[0] == a && v@[1] == b && v@[2] == c);
            }
        }
        false
    }
}

/// The calculator's state: the pending operation, the number being typed
/// and the colour theme. The previous value and the log are kept by the
/// caller.
pub struct Model {
    pub operation: String,
    pub current: String,
    pub theme: bool,
}

fn zero_string() -> (s: String)
    ensures
        s@ == zero(),
{
    let mut s = String::new();
    push_char(&mut s, '0');
    assert(s@ =~= zero());
    s
}

impl Model {
    /// No pending operation, "0" typed, day theme.
    pub fn default() -> (m: Model)
        ensures
            m.operation@ == Seq::<char>::empty(),
            m.current@ == zero(),
            !m.theme,
    {
        Model { operation: String::new(), current: zero_string(), theme: false }
    }

    /// Switches between the day and the night theme.
    pub fn theme(&mut self)
        ensures
            final(self).theme == !old(self).theme,
            final(self).operation@ == old(self).operation@,
            final(self).current@ == old(self).current@,
    {
        self.theme = !self.theme;
    }

    fn op_exec(&self) -> (o: Op)
        ensures
            o == op_of(self.operation@),
    {
        let c = chars_of(self.operation.as_str());
        if is_key1(&c, '/') {
            Op::Div
        } else if is_key1(&c, 'x') {
            Op::Mul
        } else if is_key1(&c, '+') {
            Op::Add
        } else if is_key1(&c, '-') {
            Op::Sub
        } else {
            Op::Percent
        }
    }

    /// Handles one key of the keypad.
    pub fn click(&mut self, value: &str) -> (step: Step)
        requires
            value@ == seq!['@', '<', '-'] && encode_utf8(old(self).current@).len() > 1 ==> (
            old(self).current@.len() > 0 && (old(self).current@.last() as u32) < 128),
        ensures
            final(self).theme == old(self).theme,
            is_operator(value@) && old(self).current@ != zero() ==> {
                &&& final(self).operation@ == value@
                &&& final(self).current@ == zero()
                &&& if old(self).operation@.len() == 0 {
                    step matches Step::Load { operand, key } && operand@ == old(self).current@
                        && key@ == value@
                } else {
                    step matches Step::ApplyThenLog { operand, op, key } && operand@ == old(self).current@ && op == op_of(old(self).operation@) && key@ == value@
                }
            },
            is_operator(value@) && old(self).current@ == zero() ==> step == Step::Nothing
                && final(self).operation@ == old(self).operation@ && final(self).current@ == old(self).current@,
            value@ == seq!['='] && old(self).operation@.len() > 0 ==> {
                &&& step matches Step::Apply { operand, op } && operand@ == old(self).current@ && op
                    == op_of(old(self).operation@)
                &&& final(self).operation@ == Seq::<char>::empty()
                &&& final(self).current@ == zero()
            },
            value@ == seq!['='] && old(self).operation@.len() == 0 ==> step == Step::Nothing
                && final(self).operation@ == old(self).operation@ && final(self).current@ == old(self).current@,
            value@ == seq!['C', 'E'] ==> step == Step::ClearAll && final(self).operation@
                == Seq::<char>::empty() && final(self).current@ == zero(),
            !is_operator(value@) && value@ != seq!['='] && value@ != seq!['C', 'E'] ==> step
                == Step::Nothing && final(self).operation@ == old(self).operation@ && final(self).current@ == typed(old(self).current@, value@),
    {
        let v = chars_of(value);
        let cur = chars_of(self.current.as_str());
        proof {
            lemma_one_char_keys_differ('=', '/');
            lemma_one_char_keys_differ('=', 'x');
            lemma_one_char_keys_differ('=', '+');
            lemma_one_char_keys_differ('=', '-');
            lemma_one_char_keys_differ('=', '%');
            lemma_one_char_keys_differ('=', 'C');
            lemma_one_char_keys_differ('=', '.');
            lemma_one_char_keys_differ('C', '/');
            lemma_one_char_keys_differ('C', 'x');
            lemma_one_char_keys_differ('C', '+');
            lemma_one_char_keys_differ('C', '-');
            lemma_one_char_keys_differ('C', '%');
            lemma_one_char_keys_differ('.', '/');
            lemma_one_char_keys_differ('.', 'x');
            lemma_one_char_keys_differ('.', '+');
            lemma_one_char_keys_differ('.', '-');
            lemma_one_char_keys_differ('.', '%');
            lemma_one_char_keys_differ('.', 'C');
        }
        let is_zero = is_key1(&cur, '0');
        if is_key1(&v, '/') || is_key1(&v, 'x') || is_key1(&v, '+') || is_key1(&v, '-') || is_key1(&v, '%') {
            if !is_zero {
                let operand = self.current.clone();
                let step = if self.operation.unicode_len() == 0 {
                    Step::Load { operand, key: value.to_owned() }
                } else {
                    Step::ApplyThenLog { operand, op: self.op_exec(), key: value.to_owned() }
                };
                self.operation = value.to_owned();
                self.current = zero_string();
                step
            } else {
                Step::Nothing
            }
        } else if is_key1(&v, '=') {
            if self.operation.unicode_len() > 0 {
                let step = Step::Apply { operand: self.current.clone(), op: self.op_exec() };
                self.operation = String::new();
                self.current = zero_string();
                step
            } else {
                Step::Nothing
            }
        } else if is_key2(&v, 'C', 'E') {
            self.operation = String::new();
            self.current = zero_string();
            Step::ClearAll
        } else if is_key3(&v, '@', '<', '-') {
            let long = self.current.as_str().as_bytes().len() > 1;
            assert(long == (encode_utf8(cur@).len() > 1));
            if long {
                let n = cur.len();
                assert(n > 0) by {
                    if cur@.len() == 0 {
                        assert(cur@ =~= Seq::<char>::empty());
                    }
                }
                self.current = string_of(&cur, 0, n - 1);
                assert(self.current@ =~= cur@.drop_last());
            } else {
                self.current = zero_string();
            }
            assert(self.current@ == typed(cur@, v@));
            Step::Nothing
        } else if is_key1(&v, 'C') {
            self.current = zero_string();
            assert(self.current@ == typed(cur@, v@));
            Step::Nothing
        } else if is_key1(&v, '.') {
            let mut has_dot = false;
            let mut k: usize = 0;
            while k < cur.len()
                invariant
                    k <= cur@.len(),
                    has_dot == exists|m: int| 0 <= m < k && cur@[m] == '.',
                decreases cur@.len() - k,
            {
                if cur[k] == '.' {
                    has_dot = true;
                }
                k = k + 1;
            }
            if !has_dot {
                push_char(&mut self.current, '.');
            } else {
                proof {
                    let m = choose|m: int| 0 <= m < cur@.len() && cur@[m] == '.';
                    assert(cur@.contains('.'));
                }
            }
            assert(self.current@ == typed(cur@, v@));
            Step::Nothing
        } else {
            if is_zero {
                self.current = String::new();
            }
            self.current.append(value);
            assert(self.current@ == typed(cur@, v@));
            Step::Nothing
        }
    }
}

// ---------------------------------------------------------------------
// The calculator whose state is its labels

/// The labels of the second calculator: the previous value, the number
/// being typed and the pending operation, all as texts.
pub struct Labels {
    pub prev: String,
    pub current: String,
    pub operation: String,
}

/// What the caller does after a key of the second calculator.
#[derive(Debug, PartialEq, Eq)]
pub enum Press {
    Nothing,
    /// Append `line` to the log.
    Log(String),
    /// Apply `op` to `left` and `right`, log the result, then call
    /// `finish` with its text and `then`.
    Compute { left: String, right: String, op: Op, then: Option<String> },
    /// Empty the log.
    ClearLog,
}

/// The log line of an operator: the previous value, a space, the operator.
pub open spec fn log_line(prev: Seq<char>, op: Seq<char>) -> Seq<char> {
    prev + seq![' '] + op
}

fn log_line_of(prev: &str, op: &str) -> (r: String)
    ensures
        r@ == log_line(prev@, op@),
{
    let mut r = String::new();
    r.append(prev);
    push_char(&mut r, ' ');
    r.append(op);
    r
}

impl Labels {
    /// Previous value and typed number "0", no operation.
    pub fn new() -> (l: Labels)
        ensures
            l.prev@ == zero(),
            l.current@ == zero(),
            l.operation@ == Seq::<char>::empty(),
    {
        Labels { prev: zero_string(), current: zero_string(), operation: String::new() }
    }

    /// Handles one key; `display` is the label of the log display, which
    /// "." prefixes to the point.
    pub fn press(&mut self, key: &str, display: &str) -> (p: Press)
        requires
            key@ == seq!['@', '<', '-'] && encode_utf8(old(self).current@).len() > 1 ==> (
            old(self).current@.len() > 0 && (old(self).current@.last() as u32) < 128),
        ensures
            is_operator(key@) && old(self).operation@.len() == 0 ==> {
                &&& p matches Press::Log(line) && line@ == log_line(old(self).current@, key@)
                &&& final(self).operation@ == key@
                &&& final(self).prev@ == old(self).current@
                &&& final(self).current@ == zero()
            },
            is_operator(key@) && old(self).operation@.len() > 0 ==> {
                &&& p matches Press::Compute { left, right, op, then } && left@ == old(self).prev@
                    && right@ == old(self).current@ && op == op_of(old(self).operation@) && (then
                    matches Some(k) && k@ == key@)
                &&& final(self).prev@ == old(self).prev@
                &&& final(self).current@ == old(self).current@
                &&& final(self).operation@ == old(self).operation@
            },
            key@ == seq!['='] && old(self).operation@.len() > 0 ==> {
                &&& p matches Press::Compute { left, right, op, then } && left@ == old(self).prev@
                    && right@ == old(self).current@ && op == op_of(old(self).operation@) && then
                    is None
                &&& final(self).prev@ == old(self).prev@
                &&& final(self).current@ == old(self).current@
                &&& final(self).operation@ == old(self).operation@
            },
            key@ == seq!['='] && old(self).operation@.len() == 0 ==> {
                &&& p == Press::Nothing
                &&& final(self).prev@ == old(self).current@
                &&& final(self).current@ == zero()
                &&& final(self).operation@ == Seq::<char>::empty()
            },
            key@ == seq!['C', 'E'] ==> {
                &&& p == Press::ClearLog
                &&& final(self).prev@ == zero()
                &&& final(self).current@ == zero()
                &&& final(self).operation@ == Seq::<char>::empty()
            },
            !is_operator(key@) && key@ != seq!['='] && key@ != seq!['C', 'E'] ==> {
                &&& p == Press::Nothing
                &&& final(self).prev@ == old(self).prev@
                &&& final(self).operation@ == old(self).operation@
                &&& final(self).current@ == if key@ == seq!['.'] {
                    if old(self).current@.contains('.') {
                        old(self).current@
                    } else {
                        display@.push('.')
                    }
                } else {
                    typed(old(self).current@, key@)
                }
            },
    {
        let v = chars_of(key);
        proof {
            lemma_one_char_keys_differ('=', '/');
            lemma_one_char_keys_differ('=', 'x');
            lemma_one_char_keys_differ('=', '+');
            lemma_one_char_keys_differ('=', '-');
            lemma_one_char_keys_differ('=', '%');
            lemma_one_char_keys_differ('.', '/');
            lemma_one_char_keys_differ('.', 'x');
            lemma_one_char_keys_differ('.', '+');
            lemma_one_char_keys_differ('.', '-');
            lemma_one_char_keys_differ('.', '%');
            lemma_one_char_keys_differ('.', '=');
        }
        if is_key1(&v, '/') || is_key1(&v, 'x') || is_key1(&v, '+') || is_key1(&v, '-') || is_key1(&v, '%') {
            if self.operation.unicode_len() == 0 {
                self.operation = key.to_owned();
                self.prev = self.current.clone();
                let line = log_line_of(self.prev.as_str(), self.operation.as_str());
                self.current = zero_string();
                Press::Log(line)
            } else {
                Press::Compute {
                    left: self.prev.clone(),
                    right: self.current.clone(),
                    op: op_of_text(&self.operation),
                    then: Some(key.to_owned()),
                }
            }
        } else if is_key1(&v, '=') {
            if self.operation.unicode_len() > 0 {
                Press::Compute {
                    left: self.prev.clone(),
                    right: self.current.clone(),
                    op: op_of_text(&self.operation),
                    then: None,
                }
            } else {
                self.prev = self.current.clone();
                self.operation = String::new();
                self.current = zero_string();
                Press::Nothing
            }
        } else if is_key2(&v, 'C', 'E') {
            self.operation = String::new();
            self.current = zero_string();
            self.prev = zero_string();
            Press::ClearLog
        } else if is_key1(&v, '.') {
            let cur = chars_of(self.current.as_str());
            let mut has_dot = false;
            let mut k: usize = 0;
            while k < cur.len()
                invariant
                    k <= cur@.len(),
                    has_dot == exists|m: int| 0 <= m < k && cur@[m] == '.',
                decreases cur@.len() - k,
            {
                if cur[k] == '.' {
                    has_dot = true;
                }
                k = k + 1;
            }
            if !has_dot {
                let mut s = display.to_owned();
                push_char(&mut s, '.');
                self.current = s;
            } else {
                proof {
                    let m = choose|m: int| 0 <= m < cur@.len() && cur@[m] == '.';
                    assert(cur@.contains('.'));
                }
            }
            Press::Nothing
        } else {
            let mut m = Model { operation: String::new(), current: self.current.clone(), theme: false };
            m.click(key);
            self.current = m.current;
            Press::Nothing
        }
    }

    /// Takes the result of a computation: it becomes the previous value,
    /// the operation ends and "0" is typed; with an operator to follow, that
    /// operator becomes the pending one and the log line is returned.
    pub fn finish(&mut self, result: String, then: Option<String>) -> (line: Option<String>)
        ensures
            final(self).prev@ == result@,
            final(self).current@ == zero(),
            then is None ==> line is None && final(self).operation@ == Seq::<char>::empty(),
            then matches Some(k) ==> final(self).operation@ == k@ && (line matches Some(l) && l@
                == log_line(result@, k@)),
    {
        self.prev = result;
        self.operation = String::new();
        self.current = zero_string();
        match then {
            Some(k) => {
                let line = log_line_of(self.prev.as_str(), k.as_str());
                self.operation = k;
                Some(line)
            },
            None => None,
        }
    }
}

fn op_of_text(s: &String) -> (o: Op)
    ensures
        o == op_of(s@),
{
    let c = chars_of(s.as_str());
    if is_key1(&c, '/') {
        Op::Div
    } else if is_key1(&c, 'x') {
        Op::Mul
    } else if is_key1(&c, '+') {
        Op::Add
    } else if is_key1(&c, '-') {
        Op::Sub
    } else {
        Op::Percent
    }
}

/// A digit typed over the initial "0" replaces it.
pub proof fn law_leading_zero_replaced(d: char)
    requires
        '0' <= d <= '9',
    ensures
        typed(zero(), seq![d]) == seq![d],
{
    assert(seq![d] != seq!['C']) by {
        assert(seq![d][0] != seq!['C'][0]);
    }
    assert(seq![d] != seq!['.']) by {
        assert(seq![d][0] != seq!['.'][0]);
    }
    assert(seq![d] != seq!['@', '<', '-']);
    assert(Seq::<char>::empty() + seq![d] =~= seq![d]);
}

/// A second decimal point is ignored.
pub proof fn law_one_decimal_point(current: Seq<char>)
    ensures
        typed(typed(current, seq!['.']), seq!['.']) == typed(current, seq!['.']),
{
    assert(seq!['.'] != seq!['C']) by {
        assert(seq!['.'][0] != seq!['C'][0]);
    }
    assert(seq!['.'] != seq!['@', '<', '-']);
    let once = typed(current, seq!['.']);
    if !current.contains('.') {
        assert(once[once.len() - 1] == '.');
        assert(once.contains('.'));
    }
}

/// Typing a digit and then pressing backspace gives back what was typed,
/// unless only "0" was typed.
pub proof fn law_backspace_undoes_digit(current: Seq<char>, d: char)
    requires
        '0' <= d <= '9',
        current != zero(),
    ensures
        typed(typed(current, seq![d]), seq!['@', '<', '-']) == (if current.len() == 0 {
            zero()
        } else {
            current
        }),
{
    let t = current + seq![d];
    assert(seq![d] != seq!['C']) by {
        assert(seq![d][0] != seq!['C'][0]);
    }
    assert(seq![d] != seq!['.']) by {
        assert(seq![d][0] != seq!['.'][0]);
    }
    assert(seq![d] != seq!['@', '<', '-']);
    assert(typed(current, seq![d]) == t);
    assert(t.drop_last() =~= current);
    if current.len() > 0 {
        lemma_encoding_at_least_chars(t);
    } else {
        assert(t =~= seq![d]);
        assert(t.drop_first() =~= Seq::<char>::empty());
        assert(encode_utf8(t) == vstd::utf8::encode_scalar(d as u32) + encode_utf8(t.drop_first()));
    }
}

/// A text has at least as many UTF-8 bytes as characters.
proof fn lemma_encoding_at_least_chars(s: Seq<char>)
    ensures
        encode_utf8(s).len() >= s.len(),
    decreases s.len(),
{
    if s.len() > 0 {
        lemma_encoding_at_least_chars(s.drop_first());
    }
}

/// Each operator key names its own operation: `+` adds, `-` subtracts,
/// `x` multiplies, `/` divides and `%` takes a percentage, so no two
/// operator keys name the same operation.
pub proof fn law_operator_keys_name_their_operations()
    ensures
        op_of(seq!['+']) == Op::Add,
        op_of(seq!['-']) == Op::Sub,
        op_of(seq!['x']) == Op::Mul,
        op_of(seq!['/']) == Op::Div,
        op_of(seq!['%']) == Op::Percent,
        forall|s: Seq<char>, t: Seq<char>|
            is_operator(s) && is_operator(t) && s != t ==> op_of(s) != op_of(t),
{
    assert(seq!['+'] != seq!['-']) by { assert(seq!['+'][0] != seq!['-'][0]); }
    assert(seq!['+'] != seq!['x']) by { assert(seq!['+'][0] != seq!['x'][0]); }
    assert(seq!['+'] != seq!['/']) by { assert(seq!['+'][0] != seq!['/'][0]); }
    assert(seq!['+'] != seq!['%']) by { assert(seq!['+'][0] != seq!['%'][0]); }
    assert(seq!['-'] != seq!['x']) by { assert(seq!['-'][0] != seq!['x'][0]); }
    assert(seq!['-'] != seq!['/']) by { assert(seq!['-'][0] != seq!['/'][0]); }
    assert(seq!['-'] != seq!['%']) by { assert(seq!['-'][0] != seq!['%'][0]); }
    assert(seq!['x'] != seq!['/']) by { assert(seq!['x'][0] != seq!['/'][0]); }
    assert(seq!['x'] != seq!['%']) by { assert(seq!['x'][0] != seq!['%'][0]); }
    assert(seq!['/'] != seq!['%']) by { assert(seq!['/'][0] != seq!['%'][0]); }
}

} // verus!
