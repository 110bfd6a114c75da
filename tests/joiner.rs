use subtask::joiner::{create_joiner_from_depths, joiner_spans, Glyph, GlyphSpan};
use subtask::task::ExecutionOrder;

#[test]
fn create_joiner_at_depths_correct_joiner() {
    assert_eq!(create_joiner_from_depths(0, 1), "╰─╮\r\n");
    assert_eq!(create_joiner_from_depths(1, 0), "╭─╯\r\n");
    assert_eq!(create_joiner_from_depths(0, 0), "│\r\n");
    assert_eq!(create_joiner_from_depths(1, 2), "   ╰─╮\r\n");
    assert_eq!(create_joiner_from_depths(1, 3), "\r\n");
    assert_eq!(create_joiner_from_depths(1, 3), "\r\n");
}

#[test]
fn joiner_indents_by_shallower_depth() {
    assert_eq!(create_joiner_from_depths(2, 2), "      │\r\n");
    assert_eq!(create_joiner_from_depths(3, 2), "      ╭─╯\r\n");
    assert_eq!(create_joiner_from_depths(4, 1), "\r\n");
    assert_eq!(create_joiner_from_depths(0, 127), "\r\n");
}

fn span(x: u16, y: u16, glyph: Glyph) -> GlyphSpan {
    GlyphSpan { x, y, glyph }
}

#[test]
fn series_joiner_fills_gaps_between_subtasks() {
    let spans = joiner_spans(2, 5, &vec![6, 9, 10], ExecutionOrder::Series);
    assert_eq!(
        spans,
        vec![
            span(3, 5, Glyph::Corner),
            span(3, 6, Glyph::Elbow),
            span(5, 7, Glyph::Vertical),
            span(5, 8, Glyph::Vertical),
        ]
    );
}

#[test]
fn parallel_joiner_merges_at_last_subtask() {
    let spans = joiner_spans(0, 0, &vec![1, 3, 4], ExecutionOrder::Parallel);
    assert_eq!(
        spans,
        vec![
            span(1, 0, Glyph::Corner),
            span(1, 1, Glyph::Vertical),
            span(1, 3, Glyph::Vertical),
            span(1, 4, Glyph::Merge),
        ]
    );
    assert_eq!(joiner_spans(0, 0, &vec![], ExecutionOrder::Parallel), vec![span(1, 0, Glyph::Corner)]);
    assert_eq!(
        joiner_spans(0, 0, &vec![], ExecutionOrder::Series),
        vec![span(1, 0, Glyph::Corner), span(1, 1, Glyph::Elbow)]
    );
}
