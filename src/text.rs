//! Encoding of positioned glyphs into a text-showing operator.

use crate::content::TextItem;
use vstd::prelude::*;

verus! {

/// A glyph placed in a run of text; advances and offsets are in font units
/// (thousandths of an em).
#[derive(Clone, Copy, Debug, PartialEq, Eq, Structural)]
pub struct Glyph {
    pub id: u16,
    pub x_advance: i32,
    pub x_offset: i32,
}

/// The parts of a text-showing operator, one byte or one adjustment at a
/// time.
pub enum TextEvent {
    Byte(u8),
    Adjust(int),
}

/// The face's own advance of a glyph, where the face gives one.
pub open spec fn default_advance(advances: Seq<i32>, id: u16) -> int {
    if (id as int) < advances.len() {
        advances[id as int] as int
    } else {
        0
    }
}

/// The adjustment that a glyph leaves for the one after it: its advance
/// beyond the face's own, less its offset.
pub open spec fn carry(g: Glyph, advances: Seq<i32>) -> int {
    (if (g.id as int) < advances.len() {
        g.x_advance - default_advance(advances, g.id)
    } else {
        0int
    }) - g.x_offset
}

/// The adjustment written before glyph `i`: what the previous glyph left
/// plus this glyph's own offset.
pub open spec fn pending(gs: Seq<Glyph>, advances: Seq<i32>, i: int) -> int {
    (if i == 0 {
        0
    } else {
        carry(gs[i - 1], advances)
    }) + gs[i].x_offset
}

/// The two big-endian bytes of a glyph id.
pub open spec fn code_events(id: u16) -> Seq<TextEvent> {
    seq![TextEvent::Byte((id / 256) as u8), TextEvent::Byte((id % 256) as u8)]
}

/// What the first `n` glyphs contribute to the operator: for each, a move
/// by the negated pending adjustment where that is not zero, then its code.
pub open spec fn text_events(gs: Seq<Glyph>, advances: Seq<i32>, n: int) -> Seq<TextEvent>
    decreases n,
{
    if n <= 0 {
        seq![]
    } else {
        let p = pending(gs, advances, n - 1);
        text_events(gs, advances, n - 1) + (if p != 0 {
            seq![TextEvent::Adjust(-p)]
        } else {
            seq![]
        }) + code_events(gs[n - 1].id)
    }
}

/// The bytes of a byte string, one event each.
pub open spec fn byte_events(b: Seq<u8>) -> Seq<TextEvent> {
    Seq::new(b.len(), |i: int| TextEvent::Byte(b[i]))
}

/// The events that a sequence of items spells out.
pub open spec fn item_events(items: Seq<TextItem>) -> Seq<TextEvent>
    decreases items.len(),
{
    if items.len() == 0 {
        seq![]
    } else {
        item_events(items.drop_last()) + match items.last() {
            TextItem::Show(b) => byte_events(b@),
            TextItem::Adjust(a) => seq![TextEvent::Adjust(a as int)],
        }
    }
}

/// No byte string is empty and no two byte strings are adjacent.
pub open spec fn grouped(items: Seq<TextItem>) -> bool {
    &&& forall|i: int| 0 <= i < items.len() ==> match #[trigger] items[i] {
        TextItem::Show(b) => b@.len() > 0,
        TextItem::Adjust(_) => true,
    }
    &&& forall|i: int|
        0 <= i < items.len() - 1 ==> !(#[trigger] items[i] is Show && items[i + 1] is Show)
}

/// The glyph codes of a run, two big-endian bytes per glyph.
pub open spec fn glyph_codes(gs: Seq<Glyph>) -> Seq<u8>
    decreases gs.len(),
{
    if gs.len() == 0 {
        seq![]
    } else {
        glyph_codes(gs.drop_last()) + seq![
            (gs.last().id / 256) as u8,
            (gs.last().id % 256) as u8,
        ]
    }
}

/// The bytes among some events, in order.
pub open spec fn bytes_of(ev: Seq<TextEvent>) -> Seq<u8>
    decreases ev.len(),
{
    if ev.len() == 0 {
        seq![]
    } else {
        bytes_of(ev.drop_last()) + match ev.last() {
            TextEvent::Byte(b) => seq![b],
            TextEvent::Adjust(_) => seq![],
        }
    }
}

proof fn lemma_item_events_push(items: Seq<TextItem>, it: TextItem)
    ensures
        item_events(items.push(it)) == item_events(items) + match it {
            TextItem::Show(b) => byte_events(b@),
            TextItem::Adjust(a) => seq![TextEvent::Adjust(a as int)],
        },
{
    assert(items.push(it).drop_last() =~= items);
}

proof fn lemma_byte_events_push(b: Seq<u8>, x: u8)
    ensures
        byte_events(b.push(x)) == byte_events(b) + seq![TextEvent::Byte(x)],
{
    assert(byte_events(b.push(x)) =~= byte_events(b) + seq![TextEvent::Byte(x)]);
}

/// Bytes of a concatenation.
pub proof fn lemma_bytes_of_append(a: Seq<TextEvent>, b: Seq<TextEvent>)
    ensures
        bytes_of(a + b) == bytes_of(a) + bytes_of(b),
    decreases b.len(),
{
    if b.len() == 0 {
        assert(a + b =~= a);
        assert(bytes_of(b) == Seq::<u8>::empty());
        assert(bytes_of(a) + bytes_of(b) =~= bytes_of(a));
    } else {
        assert((a + b).drop_last() =~= a + b.drop_last());
        assert((a + b).last() == b.last());
        lemma_bytes_of_append(a, b.drop_last());
        let tail: Seq<u8> = match b.last() {
            TextEvent::Byte(x) => seq![x],
            TextEvent::Adjust(_) => seq![],
        };
        assert(bytes_of(b) == bytes_of(b.drop_last()) + tail);
        assert(bytes_of(a + b) == bytes_of(a + b.drop_last()) + tail);
        assert(bytes_of(a + b) =~= bytes_of(a) + bytes_of(b));
    }
}

/// Whatever the adjustments, the bytes shown for a run are the codes of
/// its glyphs, in order.
pub proof fn lemma_shows_glyph_codes(gs: Seq<Glyph>, advances: Seq<i32>, n: int)
    requires
        0 <= n <= gs.len(),
    ensures
        bytes_of(text_events(gs, advances, n)) == glyph_codes(gs.take(n)),
    decreases n,
{
    if n > 0 {
        lemma_shows_glyph_codes(gs, advances, n - 1);
        let p = pending(gs, advances, n - 1);
        let adj: Seq<TextEvent> = if p != 0 {
            seq![TextEvent::Adjust(-p)]
        } else {
            seq![]
        };
        let prev = text_events(gs, advances, n - 1);
        lemma_bytes_of_append(prev + adj, code_events(gs[n - 1].id));
        lemma_bytes_of_append(prev, adj);
        assert(bytes_of(adj) =~= seq![]) by {
            if p != 0 {
                assert(adj.drop_last() =~= Seq::<TextEvent>::empty());
                assert(bytes_of(adj.drop_last()) == Seq::<u8>::empty());
            }
        }
        let id = gs[n - 1].id;
        let c = code_events(id);
        let c0 = c.drop_last();
        assert(c0.drop_last() =~= Seq::<TextEvent>::empty());
        assert(bytes_of(c0.drop_last()) == Seq::<u8>::empty());
        assert(bytes_of(c0) =~= seq![(id / 256) as u8]);
        assert(bytes_of(c) =~= seq![(id / 256) as u8, (id % 256) as u8]);
        assert(gs.take(n).drop_last() =~= gs.take(n - 1));
        assert(bytes_of(text_events(gs, advances, n)) =~= glyph_codes(gs.take(n)));
    } else {
        assert(gs.take(n) =~= seq![]);
    }
}

/// Encodes a run of glyphs: glyph codes grouped into byte strings, with a
/// move between them wherever the glyphs' positions differ from the face's
/// own advances.
#[verifier::rlimit(50)]
pub fn encode_glyphs(glyphs: &Vec<Glyph>, advances: &Vec<i32>) -> (items: Vec<TextItem>)
    ensures
        item_events(items@) == text_events(glyphs@, advances@, glyphs@.len() as int),
        grouped(items@),
{
    let mut items: Vec<TextItem> = Vec::new();
    let mut encoded: Vec<u8> = Vec::new();
    let mut adjustment: i64 = 0;
    let mut i: usize = 0;
    while i < glyphs.len()
        invariant
            i <= glyphs@.len(),
            adjustment == (if i == 0 {
                0
            } else {
                carry(glyphs@[i - 1], advances@)
            }),
            item_events(items@) + byte_events(encoded@) == text_events(
                glyphs@,
                advances@,
                i as int,
            ),
            grouped(items@),
            items@.len() == 0 || items@.last() is Adjust,
        decreases glyphs@.len() - i,
    {
        let g = glyphs[i];
        adjustment = adjustment + g.x_offset as i64;
        let ghost p = pending(glyphs@, advances@, i as int);
        let ghost before = text_events(glyphs@, advances@, i as int);
        assert(adjustment == p);
        if adjustment != 0 {
            if encoded.len() > 0 {
                let ghost old_items = items@;
                let ghost bytes = encoded@;
                let shown = encoded;
                encoded = Vec::new();
                assert(shown@ == bytes);
                items.push(TextItem::Show(shown));
                proof {
                    lemma_item_events_push(old_items, TextItem::Show(shown));
                    assert(byte_events(encoded@) =~= seq![]);
                    assert(items@.drop_last() == old_items);
                }
            }
            let ghost mid = items@;
            items.push(TextItem::Adjust(-adjustment));
            proof {
                lemma_item_events_push(mid, items@.last());
                assert(items@.drop_last() == mid);
                assert(byte_events(encoded@) =~= seq![]);
            }
            adjustment = 0;
        }
        let ghost enc0 = encoded@;
        let id: u16 = g.id;
        encoded.push((id >> 8) as u8);
        encoded.push((id & 0xff) as u8);
        proof {
            assert((id >> 8) as u8 == (id / 256) as u8) by (bit_vector);
            assert((id & 0xff) as u8 == (id % 256) as u8) by (bit_vector);
            lemma_byte_events_push(enc0, (g.id >> 8) as u8);
            lemma_byte_events_push(enc0.push((g.id >> 8) as u8), (g.id & 0xff) as u8);
            assert(encoded@ == enc0.push((g.id >> 8) as u8).push((g.id & 0xff) as u8));
        }
        if (g.id as usize) < advances.len() {
            adjustment = adjustment + (g.x_advance as i64 - advances[g.id as usize] as i64);
        }
        adjustment = adjustment - g.x_offset as i64;
        proof {
            let adj: Seq<TextEvent> = if p != 0 {
                seq![TextEvent::Adjust(-p)]
            } else {
                seq![]
            };
            assert(text_events(glyphs@, advances@, i + 1) == before + adj + code_events(g.id));
            assert(item_events(items@) + byte_events(encoded@) =~= text_events(
                glyphs@,
                advances@,
                i + 1,
            ));
        }
        i = i + 1;
    }
    if encoded.len() > 0 {
        let ghost old_items = items@;
        items.push(TextItem::Show(encoded));
        proof {
            lemma_item_events_push(old_items, items@.last());
        }
    } else {
        assert(item_events(items@) + byte_events(encoded@) =~= item_events(items@));
    }
    items
}

} // verus!
