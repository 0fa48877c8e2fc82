//! What the library knows of a font face, and the font objects it derives.

use std::collections::HashSet;
use crate::compress::{COMPRESSION_LEVEL, deflate, zlib_of};
use crate::refs::{RefId, bump};
use vstd::prelude::*;

verus! {

broadcast use vstd::std_specs::hash::group_hash_axioms;

/// The facts of a font face that the export reads, as plain values.
/// Metrics are in font units (thousandths of an em).
pub struct FaceInfo {
    /// The face's identifier in the font store.
    pub id: u64,
    /// The face's own horizontal advance of each glyph, by glyph id.
    pub advances: Vec<i32>,
    /// The PostScript name.
    pub postscript_name: String,
    /// Whether the face has CFF or CFF2 outlines.
    pub has_cff: bool,
    pub monospaced: bool,
    pub italic: bool,
    /// The weight class, 100 to 900.
    pub weight: u16,
    /// The global bounding box: x-min, y-min, x-max, y-max.
    pub bbox: (i32, i32, i32, i32),
    /// The pairs (codepoint, glyph) of the face's Unicode character maps, in
    /// the order they are scanned: subtable by subtable, codepoints rising.
    pub cmap_scan: Vec<(u32, u16)>,
    /// The font file.
    pub data: Vec<u8>,
}

/// The subtype of a CID font.
#[derive(Clone, Copy, Debug, PartialEq, Eq, Structural)]
pub enum CidFontType {
    /// CFF outlines (`CIDFontType0`).
    Type0,
    /// TrueType outlines (`CIDFontType2`).
    Type2,
}

/// The font descriptor flag for fixed-pitch faces.
pub const FIXED_PITCH: u32 = 1;
/// The font descriptor flag for serif faces.
pub const SERIF: u32 = 2;
/// The font descriptor flag for faces with glyphs outside the standard set.
pub const SYMBOLIC: u32 = 4;
/// The font descriptor flag for italic faces.
pub const ITALIC: u32 = 64;
/// The font descriptor flag for small-capital faces.
pub const SMALL_CAP: u32 = 0x20000;

/// The objects written for one face, their references and contents.
pub struct FontObjects {
    pub type0_ref: RefId,
    pub cid_ref: RefId,
    pub descriptor_ref: RefId,
    pub cmap_ref: RefId,
    pub data_ref: RefId,
    pub subtype: CidFontType,
    pub flags: u32,
    /// The advance of every glyph from glyph 0 on, in font units.
    pub widths: Vec<i32>,
    pub bbox: (i32, i32, i32, i32),
    /// The stem width, in thousandths of a font unit.
    pub stem_v: i64,
    /// Glyph to codepoint, glyph ids rising.
    pub to_unicode: Vec<(u16, u32)>,
    /// The compressed font file.
    pub font_file: Vec<u8>,
}

/// The name "Serif".
pub open spec fn serif_text() -> Seq<char> {
    seq!['S', 'e', 'r', 'i', 'f']
}

/// `s` contains `pat` somewhere.
pub open spec fn contains_text(s: Seq<char>, pat: Seq<char>) -> bool {
    exists|i: int| 0 <= i && i + pat.len() <= s.len() && #[trigger] s.subrange(i, i + pat.len()) == pat
}

/// The descriptor flags of a face: always symbolic and small-cap, serif
/// when the PostScript name says so, fixed-pitch and italic as the face
/// reports.
pub open spec fn flags_of(serif: bool, monospaced: bool, italic: bool) -> u32 {
    (SYMBOLIC | SMALL_CAP | (if serif { SERIF } else { 0 }) | (if monospaced { FIXED_PITCH } else { 0 }) | (if italic { ITALIC } else { 0 })) as u32
}

/// `10 + 0.244 × (weight − 50)`, in thousandths.
pub open spec fn stem_v_of(weight: u16) -> int {
    10000 + 244 * (weight - 50)
}

/// The codepoint that the ToUnicode map gives glyph `g` after the first `n`
/// scanned pairs: the last pair for it, where the glyph is in the set.
pub open spec fn last_code(scan: Seq<(u32, u16)>, set: Set<u16>, g: u16, n: int) -> Option<u32>
    decreases n,
{
    if n <= 0 {
        None
    } else if scan[n - 1].1 == g && set.contains(g) {
        Some(scan[n - 1].0)
    } else {
        last_code(scan, set, g, n - 1)
    }
}

/// Whether the PostScript name holds "Serif".
pub fn names_serif(name: &str) -> (r: bool)
    ensures
        r == contains_text(name@, serif_text()),
{
    let pat = "Serif";
    proof {
        reveal_strlit("Serif");
    }
    let n = name.unicode_len();
    let m = pat.unicode_len();
    if n < m {
        assert(!contains_text(name@, serif_text()));
        return false;
    }
    let mut i: usize = 0;
    while i <= n - m
        invariant
            n == name@.len(),
            m == pat@.len(),
            pat@ == serif_text(),
            m <= n,
            i <= n - m + 1,
            forall|k: int| 0 <= k < i ==> #[trigger] name@.subrange(k, k + m) != pat@,
        decreases n - m + 1 - i,
    {
        let mut j: usize = 0;
        let mut same = true;
        while j < m
            invariant
                n == name@.len(),
                m == pat@.len(),
                i + m <= n,
                j <= m,
                same == (forall|k: int| 0 <= k < j ==> name@[i + k] == #[trigger] pat@[k]),
            decreases m - j,
        {
            if name.get_char(i + j) != pat.get_char(j) {
                same = false;
            }
            j += 1;
        }
        if same {
            assert(name@.subrange(i as int, i + m) =~= pat@);
            return true;
        }
        assert(name@.subrange(i as int, i + m) != pat@) by {
            let k = choose|k: int| 0 <= k < m && name@[i + k] != pat@[k];
            assert(name@.subrange(i as int, i + m)[k] != pat@[k]);
        }
        i += 1;
    }
    false
}

/// The glyph-to-codepoint pairs of the ToUnicode map: for every glyph of
/// the set that the scan reaches, the last codepoint scanned for it.
pub fn to_unicode_pairs(scan: &Vec<(u32, u16)>, glyphs: &HashSet<u16>) -> (r: Vec<(u16, u32)>)
    ensures
        forall|i: int, j: int| 0 <= i < j < r@.len() ==> (#[trigger] r@[i]).0 < (#[trigger] r@[j]).0,
        forall|i: int| 0 <= i < r@.len() ==> last_code(scan@, glyphs@, (#[trigger] r@[i]).0, scan@.len() as int) == Some(r@[i].1),
        forall|g: u16| #[trigger] last_code(scan@, glyphs@, g, scan@.len() as int).is_some() ==> exists|i: int| 0 <= i < r@.len() && r@[i].0 == g,
{
    let mut table: Vec<Option<u32>> = Vec::new();
    let mut g: usize = 0;
    while g < 0x10000
        invariant
            g <= 0x10000,
            table@.len() == g,
            forall|k: int| 0 <= k < g ==> table@[k].is_none(),
        decreases 0x10000 - g,
    {
        table.push(None);
        g += 1;
    }
    let mut n: usize = 0;
    while n < scan.len()
        invariant
            n <= scan@.len(),
            table@.len() == 0x10000,
            forall|k: u16| #[trigger] table@[k as int] == last_code(scan@, glyphs@, k, n as int),
        decreases scan@.len() - n,
    {
        let (c, gl) = scan[n];
        if glyphs.contains(&gl) {
            table.set(gl as usize, Some(c));
        }
        assert forall|k: u16| #[trigger] table@[k as int] == last_code(scan@, glyphs@, k, n + 1) by {
        }
        n += 1;
    }
    let mut out: Vec<(u16, u32)> = Vec::new();
    let mut k: usize = 0;
    while k < 0x10000
        invariant
            k <= 0x10000,
            table@.len() == 0x10000,
            forall|q: u16| #[trigger] table@[q as int] == last_code(scan@, glyphs@, q, scan@.len() as int),
            forall|i: int| 0 <= i < out@.len() ==> (#[trigger] out@[i]).0 < k,
            forall|i: int, j: int| 0 <= i < j < out@.len() ==> (#[trigger] out@[i]).0 < (#[trigger] out@[j]).0,
            forall|i: int| 0 <= i < out@.len() ==> last_code(scan@, glyphs@, (#[trigger] out@[i]).0, scan@.len() as int) == Some(out@[i].1),
            forall|q: u16| (q as int) < k && #[trigger] last_code(scan@, glyphs@, q, scan@.len() as int).is_some() ==> exists|i: int| 0 <= i < out@.len() && out@[i].0 == q,
        decreases 0x10000 - k,
    {
        match table[k] {
            Some(c) => {
                let ghost before = out@;
                out.push((k as u16, c));
                proof {
                    assert(table@[(k as u16) as int] == table@[k as int]);
                    assert forall|q: u16| (q as int) < k + 1 && #[trigger] last_code(scan@, glyphs@, q, scan@.len() as int).is_some() implies exists|i: int| 0 <= i < out@.len() && out@[i].0 == q by {
                        if (q as int) < k {
                            let i = choose|i: int| 0 <= i < before.len() && before[i].0 == q;
                            assert(out@[i] == before[i]);
                        } else {
                            assert(out@[before.len() as int].0 == q);
                        }
                    }
                }
            },
            None => {
                proof {
                    assert forall|q: u16| (q as int) < k + 1 && #[trigger] last_code(scan@, glyphs@, q, scan@.len() as int).is_some() implies exists|i: int| 0 <= i < out@.len() && out@[i].0 == q by {
                        if q as int == k {
                            assert(table@[q as int] == table@[k as int]);
                        }
                    }
                }
            },
        }
        k += 1;
    }
    out
}

/// No two faces of a store share an identifier.
pub open spec fn store_wf(fonts: Seq<FaceInfo>) -> bool {
    forall|i: int, j: int|
        0 <= i < j < fonts.len() ==> (#[trigger] fonts[i]).id != (#[trigger] fonts[j]).id
}

/// The advances of the face with identifier `id`; none where the store has
/// no such face.
pub open spec fn advances_for(fonts: Seq<FaceInfo>, id: u64) -> Seq<i32> {
    if exists|i: int| 0 <= i < fonts.len() && fonts[i].id == id {
        fonts[choose|i: int| 0 <= i < fonts.len() && fonts[i].id == id].advances@
    } else {
        Seq::empty()
    }
}

/// The position of the face with identifier `id`, if the store has one.
pub fn find_face(fonts: &Vec<FaceInfo>, id: u64) -> (r: Option<usize>)
    ensures
        match r {
            Some(i) => i < fonts@.len() && fonts@[i as int].id == id,
            None => forall|i: int| 0 <= i < fonts@.len() ==> fonts@[i].id != id,
        },
{
    let mut i: usize = 0;
    while i < fonts.len()
        invariant
            i <= fonts@.len(),
            forall|j: int| 0 <= j < i ==> fonts@[j].id != id,
        decreases fonts@.len() - i,
    {
        if fonts[i].id == id {
            return Some(i);
        }
        i += 1;
    }
    None
}

/// A copy of a list of numbers.
fn copy_i32s(v: &Vec<i32>) -> (r: Vec<i32>)
    ensures
        r@ == v@,
{
    let mut r: Vec<i32> = Vec::new();
    let mut i: usize = 0;
    while i < v.len()
        invariant
            i <= v@.len(),
            r@ == v@.take(i as int),
        decreases v@.len() - i,
    {
        r.push(v[i]);
        i += 1;
        assert(r@ =~= v@.take(i as int));
    }
    assert(v@.take(v@.len() as int) =~= v@);
    r
}

/// Whether the face has CFF outlines decides the CID font's subtype.
pub open spec fn subtype_of(has_cff: bool) -> CidFontType {
    if has_cff {
        CidFontType::Type0
    } else {
        CidFontType::Type2
    }
}

/// The five objects of a face, numbered from `first` on.
pub open spec fn font_objects_spec(o: FontObjects, info: FaceInfo, glyphs: Set<u16>, first: RefId) -> bool {
    &&& o.type0_ref == first
    &&& o.cid_ref == first + 1
    &&& o.descriptor_ref == first + 2
    &&& o.cmap_ref == first + 3
    &&& o.data_ref == first + 4
    &&& o.subtype == subtype_of(info.has_cff)
    &&& o.flags == flags_of(contains_text(info.postscript_name@, serif_text()), info.monospaced, info.italic)
    &&& o.widths@ == info.advances@
    &&& o.bbox == info.bbox
    &&& o.stem_v == stem_v_of(info.weight)
    &&& o.font_file@ == zlib_of(info.data@, COMPRESSION_LEVEL)
    &&& forall|i: int, j: int| 0 <= i < j < o.to_unicode@.len() ==> (#[trigger] o.to_unicode@[i]).0 < (#[trigger] o.to_unicode@[j]).0
    &&& forall|i: int| 0 <= i < o.to_unicode@.len() ==> last_code(info.cmap_scan@, glyphs, (#[trigger] o.to_unicode@[i]).0, info.cmap_scan@.len() as int) == Some(o.to_unicode@[i].1)
    &&& forall|g: u16| #[trigger] last_code(info.cmap_scan@, glyphs, g, info.cmap_scan@.len() as int).is_some() ==> exists|i: int| 0 <= i < o.to_unicode@.len() && o.to_unicode@[i].0 == g
}

/// Derives the objects of one face from its facts and the glyphs used
/// with it, taking five references from the allocator.
pub fn font_objects(info: &FaceInfo, glyphs: &HashSet<u16>, alloc: &mut RefId) -> (r: FontObjects)
    requires
        0 < *old(alloc),
        *old(alloc) + 5 < RefId::MAX,
    ensures
        *final(alloc) == *old(alloc) + 5,
        font_objects_spec(r, *info, glyphs@, *old(alloc)),
{
    let type0_ref = bump(alloc);
    let cid_ref = bump(alloc);
    let descriptor_ref = bump(alloc);
    let cmap_ref = bump(alloc);
    let data_ref = bump(alloc);
    let subtype = if info.has_cff { CidFontType::Type0 } else { CidFontType::Type2 };
    let serif = names_serif(info.postscript_name.as_str());
    let flags: u32 = SYMBOLIC | SMALL_CAP | (if serif { SERIF } else { 0 }) | (if info.monospaced { FIXED_PITCH } else { 0 }) | (if info.italic { ITALIC } else { 0 });
    let stem_v: i64 = 10000 + 244 * (info.weight as i64 - 50);
    FontObjects {
        type0_ref,
        cid_ref,
        descriptor_ref,
        cmap_ref,
        data_ref,
        subtype,
        flags,
        widths: copy_i32s(&info.advances),
        bbox: info.bbox,
        stem_v,
        to_unicode: to_unicode_pairs(&info.cmap_scan, glyphs),
        font_file: deflate(info.data.as_slice()),
    }
}

/// A glyph of the set that exactly one scanned codepoint reaches maps back
/// to that codepoint, so that text drawn with it reads back as written.
pub proof fn lemma_unique_preimage(scan: Seq<(u32, u16)>, set: Set<u16>, g: u16, k: int, n: int)
    requires
        0 <= k < n <= scan.len(),
        scan[k].1 == g,
        set.contains(g),
        forall|j: int| 0 <= j < scan.len() && j != k ==> (#[trigger] scan[j]).1 != g,
    ensures
        last_code(scan, set, g, n) == Some(scan[k].0),
    decreases n,
{
    if n - 1 != k {
        assert(scan[n - 1].1 != g);
        lemma_unique_preimage(scan, set, g, k, n - 1);
    }
}

} // verus!
