//! Window geometry saved between runs: a width and a height, each kept as
//! two bytes (how many times 255, and the rest), possibly followed by
//! further settings.
use vstd::prelude::*;

verus! {

/// The size that the first four saved bytes describe.
pub open spec fn decoded_size(p: Seq<u8>) -> (int, int) {
    (p[0] * 255 + p[1], p[2] * 255 + p[3])
}

/// Integer division and remainder rounded toward zero, as Rust computes
/// them.
pub open spec fn quot(a: int, b: int) -> int {
    if a >= 0 { a / b } else { -((-a) / b) }
}

pub open spec fn rem(a: int, b: int) -> int {
    a - quot(a, b) * b
}

/// The four bytes saved for a size (each taken modulo 256, as `as u8`
/// does).
pub open spec fn encoded_size(w: int, h: int) -> Seq<u8> {
    seq![quot(w, 255) as u8, rem(w, 255) as u8, quot(h, 255) as u8, rem(h, 255) as u8]
}

/// The window size that saved settings describe.
pub fn window_size(params: &[u8]) -> (r: (i32, i32))
    requires
        params@.len() >= 4,
    ensures
        r.0 == decoded_size(params@).0,
        r.1 == decoded_size(params@).1,
{
    (params[0] as i32 * 255 + params[1] as i32, params[2] as i32 * 255 + params[3] as i32)
}

/// The bytes saved for a window of width `w` and height `h`.
pub fn size_params(w: i32, h: i32) -> (r: [u8; 4])
    ensures
        r@ == encoded_size(w as int, h as int),
{
    let r = [(w / 255) as u8, (w % 255) as u8, (h / 255) as u8, (h % 255) as u8];
    assert(r@ =~= encoded_size(w as int, h as int));
    r
}

/// The settings to use: those read from disk when there are as many as
/// the defaults, else the defaults. The flag tells whether settings were
/// read but had the wrong length.
pub fn stored_or_default(stored: Option<Vec<u8>>, default: &[u8]) -> (r: (Vec<u8>, bool))
    ensures
        match stored {
            Some(v) => if v@.len() == default@.len() {
                r.0@ == v@ && !r.1
            } else {
                r.0@ == default@ && r.1
            },
            None => r.0@ == default@ && !r.1,
        },
{
    match stored {
        Some(v) => {
            if v.len() == default.len() {
                (v, false)
            } else {
                (copy_bytes(default), true)
            }
        },
        None => (copy_bytes(default), false),
    }
}

fn copy_bytes(s: &[u8]) -> (v: Vec<u8>)
    ensures
        v@ == s@,
{
    let mut v: Vec<u8> = Vec::new();
    let mut k: usize = 0;
    while k < s.len()
        invariant
            k <= s@.len(),
            v@ == s@.take(k as int),
        decreases s@.len() - k,
    {
        v.push(s[k]);
        k = k + 1;
        assert(v@ =~= s@.take(k as int));
    }
    assert(v@ =~= s@);
    v
}

/// Saving a size and reading it back gives the same size, for sizes up
/// to 255 * 256 - 1.
pub proof fn law_size_round_trip(w: int, h: int)
    requires
        0 <= w < 65280,
        0 <= h < 65280,
    ensures
        decoded_size(encoded_size(w, h)) == (w, h),
{
    let e = encoded_size(w, h);
    assert(0 <= w / 255 < 256 && 0 <= h / 255 < 256);
    assert(e[0] == w / 255 && e[1] == w % 255);
    assert(e[2] == h / 255 && e[3] == h % 255);
    assert(w == (w / 255) * 255 + w % 255);
    assert(h == (h / 255) * 255 + h % 255);
}

} // verus!
