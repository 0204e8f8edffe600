//! The REST client's address line: what the user types becomes an HTTPS
//! address.
use vstd::prelude::*;
use crate::text::{chars_of, same_chars};

verus! {

/// The address a request goes to: the text typed, with `https://` put in
/// front unless it already starts with it.
pub open spec fn https_address_of(path: Seq<char>) -> Seq<char> {
    if "https://"@.is_prefix_of(path) {
        path
    } else {
        "https://"@ + path
    }
}

/// The address a request goes to, as `https_address_of` gives it.
pub fn https_address(path: &str) -> (r: String)
    ensures
        r@ == https_address_of(path@),
{
    proof {
        reveal_strlit("https://");
    }
    let scheme = ['h', 't', 't', 'p', 's', ':', '/', '/'];
    assert(scheme@ =~= "https://"@);
    let c = chars_of(path);
    let mut start: Vec<char> = Vec::new();
    let mut k: usize = 0;
    while k < c.len() && k < 8
        invariant
            k <= c@.len(),
            k <= 8,
            start@ == c@.take(k as int),
        decreases 8 - k,
    {
        start.push(c[k]);
        k = k + 1;
        assert(start@ =~= c@.take(k as int));
    }
    let mut r = String::new();
    if same_chars(&start, &scheme) {
        assert(c@.take(8) == "https://"@);
        assert("https://"@.is_prefix_of(path@));
    } else {
        assert(!"https://"@.is_prefix_of(path@)) by {
            if "https://"@.is_prefix_of(path@) {
                assert(c@.take(8) =~= "https://"@);
            }
        }
        r.append("https://");
    }
    r.append(path);
    r
}

} // verus!
