//! The characters a font file draws, for the glyph map.
use vstd::prelude::*;
use crate::text::char_from_code;
use ttf_parser::Face;

verus! {

/// What the last subtable of the character map of the first face of a
/// font file lists: `None` when the file does not parse as a font or has no
/// character map, `Some(None)` when the map has no subtable, else the code
/// points in the order `ttf_parser` reports them.
pub uninterp spec fn cmap_codepoints(data: Seq<u8>) -> Option<Option<Seq<u32>>>;

/// Whether the first face of a font file maps a character to a glyph
/// (`ttf_parser::Face::glyph_index` gives one); false for a file that does
/// not parse.
pub uninterp spec fn font_has_glyph(data: Seq<u8>, c: char) -> bool;

/// Trusted: `ttf_parser::Face::from_slice(data, 0)`, then the `cmap` table
/// and `codepoints` of its last subtable. The contract names the result
/// `cmap_codepoints`; it depends on the bytes alone.
#[verifier::external_body]
fn last_cmap_codepoints(data: &[u8]) -> (r: Option<Option<Vec<u32>>>)
    ensures
        r is None <==> cmap_codepoints(data@) is None,
        r matches Some(None) <==> cmap_codepoints(data@) matches Some(None),
        r matches Some(Some(v)) ==> cmap_codepoints(data@) == Some(Some(v@)),
{
    let face = match Face::from_slice(data, 0) { Ok(f) => f, Err(_) => return None };
    let cmap = match face.tables().cmap { Some(c) => c, None => return None };
    match cmap.subtables.into_iter().last() {
        Some(table) => {
            let mut v = Vec::new();
            table.codepoints(|cp| v.push(cp));
            Some(Some(v))
        },
        None => Some(None),
    }
}

/// Trusted: `ttf_parser::Face::from_slice(data, 0)` and `glyph_index`. The
/// contract names the result `font_has_glyph`.
#[verifier::external_body]
fn has_glyph(data: &[u8], c: char) -> (r: bool)
    ensures
        r == font_has_glyph(data@, c),
{
    match Face::from_slice(data, 0) {
        Ok(face) => face.glyph_index(c).is_some(),
        Err(_) => false,
    }
}

/// A code point that is a character.
pub open spec fn is_scalar_code(cp: u32) -> bool {
    cp <= 0xD7FF || 0xE000 <= cp <= 0x10FFFF
}

/// Every code point is a character.
pub open spec fn all_scalar(cps: Seq<u32>) -> bool {
    forall|k: int| 0 <= k < cps.len() ==> is_scalar_code(#[trigger] cps[k])
}

/// The characters among `cps` that the font draws, in order.
pub open spec fn drawn(data: Seq<u8>, cps: Seq<u32>) -> Seq<char>
    decreases cps.len(),
{
    if cps.len() == 0 {
        Seq::empty()
    } else {
        let rest = drawn(data, cps.drop_last());
        let c = cps.last() as char;
        if font_has_glyph(data, c) {
            rest.push(c)
        } else {
            rest
        }
    }
}

/// The characters of a font file that the glyph map lists, before it
/// measures them: the code points of the last character-map subtable that
/// have a glyph. `None` when the file has no character map, or the map
/// lists a code point that is not a character.
pub fn glyph_chars(data: &[u8]) -> (r: Option<Vec<char>>)
    ensures
        cmap_codepoints(data@) is None ==> r is None,
        cmap_codepoints(data@) matches Some(None) ==> r matches Some(v) && v@.len() == 0,
        cmap_codepoints(data@) matches Some(Some(cps)) ==> (r is Some <==> all_scalar(cps)),
        cmap_codepoints(data@) matches Some(Some(cps)) ==> (r matches Some(v) ==> v@ == drawn(data@, cps)),
{
    match last_cmap_codepoints(data) {
        None => None,
        Some(None) => Some(Vec::new()),
        Some(Some(cps)) => {
            let mut out: Vec<char> = Vec::new();
            let mut k: usize = 0;
            while k < cps.len()
                invariant
                    cmap_codepoints(data@) == Some(Some(cps@)),
                    k <= cps@.len(),
                    forall|m: int| 0 <= m < k ==> is_scalar_code(#[trigger] cps@[m]),
                    out@ == drawn(data@, cps@.take(k as int)),
                decreases cps@.len() - k,
            {
                assert(cps@.take(k + 1).drop_last() =~= cps@.take(k as int));
                match char_from_code(cps[k]) {
                    Some(c) => {
                        proof {
                            vstd::utf8::char_u32_cast(c, cps@[k as int]);
                            assert(cps@.take(k + 1).last() == cps@[k as int]);
                        }
                        if has_glyph(data, c) {
                            out.push(c);
                        }
                    },
                    None => {
                        assert(!is_scalar_code(cps@[k as int]));
                        return None;
                    },
                }
                k = k + 1;
            }
            assert(cps@.take(cps@.len() as int) =~= cps@);
            Some(out)
        },
    }
}

} // verus!
