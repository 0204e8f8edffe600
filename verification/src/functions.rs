//! Which spreadsheet function a name calls, given how many values it is
//! applied to.
use vstd::prelude::*;
use crate::text::{chars_of, lower_ascii, ascii_lower};

verus! {

/// The functions a formula may apply.
#[derive(Debug, PartialEq, Eq, Clone, Copy, Structural)]
pub enum Function {
    Add,
    Sub,
    Div,
    Mul,
    Mod,
    Sum,
    Prod,
}

/// The name in ASCII lower case.
pub open spec fn lowered(name: Seq<char>) -> Seq<char> {
    name.map_values(|c: char| ascii_lower(c))
}

/// The function called by `name` (in any ASCII letter case) on `count`
/// values: `add`, `sub`, `div`, `mul` and `mod` take exactly two values,
/// `sum` and `prod` any number. Anything else calls nothing.
pub open spec fn function_of(name: Seq<char>, count: nat) -> Option<Function> {
    let l = lowered(name);
    if l == seq!['a', 'd', 'd'] && count == 2 {
        Some(Function::Add)
    } else if l == seq!['s', 'u', 'b'] && count == 2 {
        Some(Function::Sub)
    } else if l == seq!['d', 'i', 'v'] && count == 2 {
        Some(Function::Div)
    } else if l == seq!['m', 'u', 'l'] && count == 2 {
        Some(Function::Mul)
    } else if l == seq!['m', 'o', 'd'] && count == 2 {
        Some(Function::Mod)
    } else if l == seq!['s', 'u', 'm'] {
        Some(Function::Sum)
    } else if l == seq!['p', 'r', 'o', 'd'] {
        Some(Function::Prod)
    } else {
        None
    }
}

fn lowered_exec(name: &str) -> (v: Vec<char>)
    ensures
        v@ == lowered(name@),
{
    let s = chars_of(name);
    let mut v: Vec<char> = Vec::new();
    let mut k: usize = 0;
    while k < s.len()
        invariant
            k <= s@.len(),
            s@ == name@,
            v@ == lowered(s@.take(k as int)),
        decreases s@.len() - k,
    {
        v.push(lower_ascii(s[k]));
        k = k + 1;
        assert(v@ =~= lowered(s@.take(k as int)));
    }
    assert(s@.take(s@.len() as int) =~= s@);
    v
}

fn is_word(v: &Vec<char>, w: &[char]) -> (b: bool)
    ensures
        b == (v@ == w@),
{
    if v.len() != w.len() {
        return false;
    }
    let mut k: usize = 0;
    while k < v.len()
        invariant
            v@.len() == w@.len(),
            k <= v@.len(),
            forall|m: int| 0 <= m < k ==> v@[m] == w@[m],
        decreases v@.len() - k,
    {
        if v[k] != w[k] {
            return false;
        }
        k = k + 1;
    }
    assert(v@ =~= w@);
    true
}

impl Function {
    /// The function `name` calls on `count` values (see `function_of`).
    pub fn classify(name: &str, count: usize) -> (r: Option<Function>)
        ensures
            r == function_of(name@, count as nat),
    {
        let l = lowered_exec(name);
        let add = ['a', 'd', 'd'];
        let sub = ['s', 'u', 'b'];
        let div = ['d', 'i', 'v'];
        let mul = ['m', 'u', 'l'];
        let rem = ['m', 'o', 'd'];
        let sum = ['s', 'u', 'm'];
        let prod = ['p', 'r', 'o', 'd'];
        assert(add@ =~= seq!['a', 'd', 'd']);
        assert(sub@ =~= seq!['s', 'u', 'b']);
        assert(div@ =~= seq!['d', 'i', 'v']);
        assert(mul@ =~= seq!['m', 'u', 'l']);
        assert(rem@ =~= seq!['m', 'o', 'd']);
        assert(sum@ =~= seq!['s', 'u', 'm']);
        assert(prod@ =~= seq!['p', 'r', 'o', 'd']);
        if is_word(&l, &add) && count == 2 {
            Some(Function::Add)
        } else if is_word(&l, &sub) && count == 2 {
            Some(Function::Sub)
        } else if is_word(&l, &div) && count == 2 {
            Some(Function::Div)
        } else if is_word(&l, &mul) && count == 2 {
            Some(Function::Mul)
        } else if is_word(&l, &rem) && count == 2 {
            Some(Function::Mod)
        } else if is_word(&l, &sum) {
            Some(Function::Sum)
        } else if is_word(&l, &prod) {
            Some(Function::Prod)
        } else {
            None
        }
    }
}

} // verus!
