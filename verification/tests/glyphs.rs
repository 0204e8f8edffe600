use fldemos::glyphs::glyph_chars;

fn be16(v: &mut Vec<u8>, x: u16) {
    v.extend_from_slice(&x.to_be_bytes());
}

fn be32(v: &mut Vec<u8>, x: u32) {
    v.extend_from_slice(&x.to_be_bytes());
}

/// A minimal TrueType font: `head`, `hhea`, `maxp` and a `cmap` whose one
/// byte-encoding subtable maps the given characters to glyphs 1, 2, ...
fn tiny_font(chars: &[u8]) -> Vec<u8> {
    let mut head = Vec::new();
    be32(&mut head, 0x0001_0000);
    be32(&mut head, 0x0001_0000);
    be32(&mut head, 0);
    be32(&mut head, 0x5F0F_3CF5);
    be16(&mut head, 0);
    be16(&mut head, 1000);
    head.extend_from_slice(&[0; 16]);
    head.extend_from_slice(&[0; 8]);
    be16(&mut head, 0);
    be16(&mut head, 8);
    be16(&mut head, 2);
    be16(&mut head, 0);
    be16(&mut head, 0);
    assert_eq!(head.len(), 54);
    let mut hhea = vec![0u8; 34];
    hhea[0..4].copy_from_slice(&0x0001_0000u32.to_be_bytes());
    be16(&mut hhea, 1);
    let mut maxp = Vec::new();
    be32(&mut maxp, 0x0000_5000);
    be16(&mut maxp, (chars.len() + 1) as u16);
    let mut cmap = Vec::new();
    be16(&mut cmap, 0);
    be16(&mut cmap, 1);
    be16(&mut cmap, 0);
    be16(&mut cmap, 3);
    be32(&mut cmap, 12);
    be16(&mut cmap, 0);
    be16(&mut cmap, 262);
    be16(&mut cmap, 0);
    let mut ids = [0u8; 256];
    for (k, c) in chars.iter().enumerate() {
        ids[*c as usize] = (k + 1) as u8;
    }
    cmap.extend_from_slice(&ids);
    let tables: [(&[u8; 4], &Vec<u8>); 4] = [(b"head", &head), (b"hhea", &hhea), (b"maxp", &maxp), (b"cmap", &cmap)];
    let mut font = Vec::new();
    be32(&mut font, 0x0001_0000);
    be16(&mut font, 4);
    be16(&mut font, 0);
    be16(&mut font, 0);
    be16(&mut font, 0);
    let mut offset = 12 + 16 * 4;
    for (tag, data) in tables.iter() {
        font.extend_from_slice(*tag);
        be32(&mut font, 0);
        be32(&mut font, offset as u32);
        be32(&mut font, data.len() as u32);
        offset += data.len();
    }
    for (_, data) in tables.iter() {
        font.extend_from_slice(data);
    }
    font
}

#[test]
fn bytes_that_are_no_font_give_nothing() {
    assert_eq!(glyph_chars(&[]), None);
    assert_eq!(glyph_chars(b"not a font at all"), None);
}

#[test]
fn mapped_characters_are_listed_in_code_order() {
    assert_eq!(glyph_chars(&tiny_font(b"BA")), Some(vec!['A', 'B']));
    assert_eq!(glyph_chars(&tiny_font(b"z")), Some(vec!['z']));
}
