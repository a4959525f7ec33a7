//! Which span of a rich paragraph a hit on its text lands in.
use vstd::prelude::*;

verus! {

/// The side of a character boundary a cursor leans to.
#[derive(Debug, Clone, Copy, PartialEq, Eq, Structural)]
pub enum Affinity {
    /// The cursor belongs to the character before it.
    Before,
    /// The cursor belongs to the character after it.
    After,
}

/// A laid-out glyph: the byte range of the line text it draws and the
/// index of the span it comes from.
#[derive(Debug, Clone, Copy, PartialEq, Eq, Structural)]
pub struct GlyphSpan {
    /// The first byte of the glyph's text.
    pub start: usize,
    /// One past the last byte of the glyph's text.
    pub end: usize,
    /// The index of the span the glyph belongs to.
    pub span: usize,
}

/// The byte a cursor at `index` with `affinity` points at.
pub open spec fn hit_byte(index: usize, affinity: Affinity) -> usize {
    match affinity {
        Affinity::Before => if index == 0 {
            0
        } else {
            (index - 1) as usize
        },
        Affinity::After => index,
    }
}

/// Whether `glyph` draws byte `byte`.
pub open spec fn covers(glyph: GlyphSpan, byte: usize) -> bool {
    glyph.start <= byte && byte < glyph.end
}

/// The span of the first glyph, in layout order, that draws `byte`.
pub open spec fn first_covering(glyphs: Seq<GlyphSpan>, byte: usize) -> Option<usize>
    decreases glyphs.len(),
{
    if glyphs.len() == 0 {
        None
    } else if covers(glyphs[0], byte) {
        Some(glyphs[0].span)
    } else {
        first_covering(glyphs.drop_first(), byte)
    }
}

/// The span that a cursor at `index` with `affinity` lands in, on a line
/// of `line_len` bytes laid out as `glyphs`: none past the end of the
/// line, else the span of the first glyph that draws the byte the cursor
/// points at.
pub fn span_hit(glyphs: &Vec<GlyphSpan>, line_len: usize, index: usize, affinity: Affinity) -> (hit: Option<usize>)
    ensures
        index >= line_len ==> hit is None,
        index < line_len ==> hit == first_covering(glyphs@, hit_byte(index, affinity)),
{
    if index >= line_len {
        return None;
    }
    let byte = match affinity {
        Affinity::Before => index.saturating_sub(1),
        Affinity::After => index,
    };
    assert(glyphs@.subrange(0, glyphs@.len() as int) =~= glyphs@);
    let mut i: usize = 0;
    while i < glyphs.len()
        invariant
            index < line_len,
            i <= glyphs@.len(),
            byte == hit_byte(index, affinity),
            first_covering(glyphs@, byte) == first_covering(glyphs@.subrange(i as int, glyphs@.len() as int), byte),
        decreases glyphs@.len() - i,
    {
        let glyph = glyphs[i];
        let ghost rest = glyphs@.subrange(i as int, glyphs@.len() as int);
        assert(rest[0] == glyph);
        assert(rest.drop_first() =~= glyphs@.subrange(i + 1, glyphs@.len() as int));
        if glyph.start <= byte && byte < glyph.end {
            return Some(glyph.span);
        }
        i = i + 1;
    }
    assert(glyphs@.subrange(i as int, glyphs@.len() as int).len() == 0);
    None
}

/// A hit lands in a span only when some glyph draws the byte the cursor
/// points at, and that glyph belongs to the span.
pub proof fn law_hit_span_is_drawn_there(glyphs: Seq<GlyphSpan>, byte: usize)
    ensures
        first_covering(glyphs, byte) is Some ==> exists|i: int|
            0 <= i < glyphs.len() && covers(#[trigger] glyphs[i], byte) && glyphs[i].span == first_covering(
                glyphs,
                byte,
            )->0,
        (forall|i: int| 0 <= i < glyphs.len() ==> !covers(#[trigger] glyphs[i], byte)) ==> first_covering(
            glyphs,
            byte,
        ) is None,
    decreases glyphs.len(),
{
    if glyphs.len() > 0 {
        let rest = glyphs.drop_first();
        law_hit_span_is_drawn_there(rest, byte);
        if !covers(glyphs[0], byte) && first_covering(glyphs, byte) is Some {
            let i = choose|i: int|
                0 <= i < rest.len() && covers(#[trigger] rest[i], byte) && rest[i].span == first_covering(
                    rest,
                    byte,
                )->0;
            assert(glyphs[i + 1] == rest[i]);
        }
        if forall|i: int| 0 <= i < glyphs.len() ==> !covers(#[trigger] glyphs[i], byte) {
            assert forall|i: int| 0 <= i < rest.len() implies !covers(#[trigger] rest[i], byte) by {
                assert(rest[i] == glyphs[i + 1]);
            }
            assert(!covers(glyphs[0], byte));
        }
    }
}

} // verus!
