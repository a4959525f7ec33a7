use iced_logic::text_hit::{span_hit, Affinity, GlyphSpan};

fn glyphs() -> Vec<GlyphSpan> {
    // "ab" from span 0, "cd" from span 1, "e" from span 2.
    vec![
        GlyphSpan { start: 0, end: 2, span: 0 },
        GlyphSpan { start: 2, end: 4, span: 1 },
        GlyphSpan { start: 4, end: 5, span: 2 },
    ]
}

#[test]
fn a_hit_lands_in_the_span_of_its_glyph() {
    assert_eq!(Some(0), span_hit(&glyphs(), 5, 1, Affinity::After));
    assert_eq!(Some(1), span_hit(&glyphs(), 5, 2, Affinity::After));
    assert_eq!(Some(2), span_hit(&glyphs(), 5, 4, Affinity::After));
}

#[test]
fn a_leading_cursor_points_at_the_byte_before() {
    assert_eq!(Some(0), span_hit(&glyphs(), 5, 2, Affinity::Before));
    assert_eq!(Some(0), span_hit(&glyphs(), 5, 0, Affinity::Before));
}

#[test]
fn past_the_line_nothing_is_hit() {
    assert_eq!(None, span_hit(&glyphs(), 5, 5, Affinity::After));
    assert_eq!(None, span_hit(&glyphs(), 3, 3, Affinity::Before));
    assert_eq!(None, span_hit(&Vec::new(), 5, 1, Affinity::After));
}
