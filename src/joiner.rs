//! The connector projector: the glyphs drawn between rendered tasks to show
//! the shape of the tree. It owns no tree state; callers supply depths and rows.

use vstd::prelude::*;
use crate::task::ExecutionOrder;
use crate::task_list::repeated;

verus! {

/// The smaller of two integers.
pub open spec fn min_of(a: int, b: int) -> int {
    if a <= b {
        a
    } else {
        b
    }
}

/// The connector line between a task at depth `above` and the task below it at
/// depth `below`: an elbow opening a branch, a vertical bar, or an elbow closing
/// one, indented three columns per level of the shallower depth; a bare line
/// break for a jump of more than one level.
pub open spec fn joiner_text(above: int, below: int) -> Seq<char> {
    let indent = repeated(' ', (3 * min_of(above, below)) as nat);
    if below - above == 1 {
        indent + "╰─╮\r\n"@
    } else if below == above {
        indent + "│\r\n"@
    } else if below - above == -1 {
        indent + "╭─╯\r\n"@
    } else {
        "\r\n"@
    }
}

/// Renders a joiner between two tasks given their depths. Jumps of more than
/// one level get no joiner.
pub fn create_joiner_from_depths(depth_above: i8, depth_below: i8) -> (r: String)
    requires
        depth_above >= 0,
        depth_below >= 0,
    ensures
        r@ == joiner_text(depth_above as int, depth_below as int),
{
    let depth_diff: i16 = depth_below as i16 - depth_above as i16;
    proof {
        reveal_strlit("\r\n");
        reveal_strlit(" ");
        reveal_strlit("╰─╮\r\n");
        reveal_strlit("│\r\n");
        reveal_strlit("╭─╯\r\n");
    }
    if depth_diff < -1 || depth_diff > 1 {
        return String::from_str("\r\n");
    }
    let shallower: usize = if depth_above <= depth_below {
        depth_above as usize
    } else {
        depth_below as usize
    };
    let mut result = String::new();
    let mut k: usize = 0;
    while k < 3 * shallower
        invariant
            shallower <= 127,
            k <= 3 * shallower,
            result@ == repeated(' ', k as nat),
        decreases 3 * shallower - k,
    {
        result.append(" ");
        proof {
            reveal_strlit(" ");
            assert(result@ =~= repeated(' ', (k + 1) as nat));
        }
        k += 1;
    }
    if depth_diff == 1 {
        result.append("╰─╮\r\n");
    } else if depth_diff == 0 {
        result.append("│\r\n");
    } else {
        result.append("╭─╯\r\n");
    }
    result
}

/// The glyphs that join a branch task to its rendered subtasks.
#[derive(Clone, Copy, Debug, PartialEq, Eq, Structural)]
pub enum Glyph {
    /// `╮`, beside the branch task.
    Corner,
    /// `╰─`, on the row below the branch task.
    Elbow,
    /// `│`, a vertical fill.
    Vertical,
    /// `x─`, where parallel subtasks merge.
    Merge,
}

/// A glyph placed at a screen cell.
#[derive(Clone, Copy, Debug, PartialEq, Eq, Structural)]
pub struct GlyphSpan {
    pub x: u16,
    pub y: u16,
    pub glyph: Glyph,
}

/// Vertical fills in column `x` on the rows strictly between `a` and `b`.
pub open spec fn gap_fill(x: u16, a: int, b: int) -> Seq<GlyphSpan> {
    Seq::new(
        if b - a - 1 > 0 {
            (b - a - 1) as nat
        } else {
            0
        },
        |i: int| GlyphSpan { x, y: (a + 1 + i) as u16, glyph: Glyph::Vertical },
    )
}

/// Vertical fills in column `x` across the gaps between consecutive rows of `rows`.
pub open spec fn gap_fills(x: u16, rows: Seq<u16>) -> Seq<GlyphSpan>
    decreases rows.len(),
{
    if rows.len() < 2 {
        Seq::empty()
    } else {
        gap_fills(x, rows.drop_last()) + gap_fill(x, rows[rows.len() - 2] as int, rows.last() as int)
    }
}

/// The joiner of a branch task drawn at (`x`, `y`) whose rendered subtasks sit on
/// `rows`: a corner beside it; under series, an elbow on the row below and fills
/// across the gaps between subtask rows; under parallel, fills on every subtask
/// row but the last, and a merge on the last.
pub open spec fn joiner_layout(x: u16, y: u16, rows: Seq<u16>, order: ExecutionOrder) -> Seq<GlyphSpan> {
    let corner = GlyphSpan { x: (x + 1) as u16, y, glyph: Glyph::Corner };
    match order {
        ExecutionOrder::Series => seq![
            corner,
            GlyphSpan { x: (x + 1) as u16, y: (y + 1) as u16, glyph: Glyph::Elbow },
        ] + gap_fills((x + 3) as u16, rows),
        ExecutionOrder::Parallel => if rows.len() == 0 {
            seq![corner]
        } else {
            seq![corner] + Seq::new(
                (rows.len() - 1) as nat,
                |i: int| GlyphSpan { x: (x + 1) as u16, y: rows[i], glyph: Glyph::Vertical },
            ) + seq![GlyphSpan { x: (x + 1) as u16, y: rows.last(), glyph: Glyph::Merge }]
        },
    }
}

/// The glyphs joining a branch task drawn at (`x`, `y`) to its rendered subtasks
/// on the rows `subtask_rows`.
pub fn joiner_spans(x: u16, y: u16, subtask_rows: &Vec<u16>, order: ExecutionOrder) -> (r: Vec<GlyphSpan>)
    requires
        x + 3 <= u16::MAX,
        y + 1 <= u16::MAX,
    ensures
        r@ == joiner_layout(x, y, subtask_rows@, order),
{
    let rows = subtask_rows;
    let mut spans: Vec<GlyphSpan> = Vec::new();
    spans.push(GlyphSpan { x: x + 1, y, glyph: Glyph::Corner });
    match order {
        ExecutionOrder::Series => {
            spans.push(GlyphSpan { x: x + 1, y: y + 1, glyph: Glyph::Elbow });
            let ghost head = spans@;
            proof {
                assert(rows@.take(1).len() < 2 || rows@.len() == 0);
                if rows@.len() > 0 {
                    assert(gap_fills((x + 3) as u16, rows@.take(1)) == Seq::<GlyphSpan>::empty());
                }
                assert(spans@ =~= head + gap_fills((x + 3) as u16, rows@.take(0)));
            }
            let mut i: usize = 1;
            while i < rows.len()
                invariant
                    x + 3 <= u16::MAX,
                    y + 1 <= u16::MAX,
                    1 <= i,
                    rows@.len() > 0 ==> i <= rows@.len(),
                    head == seq![
                        GlyphSpan { x: (x + 1) as u16, y, glyph: Glyph::Corner },
                        GlyphSpan { x: (x + 1) as u16, y: (y + 1) as u16, glyph: Glyph::Elbow },
                    ],
                    rows@.len() > 0 ==> spans@ == head + gap_fills((x + 3) as u16, rows@.take(i as int)),
                    rows@.len() == 0 ==> spans@ == head,
                decreases rows@.len() - i,
            {
                let a = rows[i - 1];
                let b = rows[i];
                let ghost before = spans@;
                if a < u16::MAX {
                    let mut row: u16 = a + 1;
                    while row < b
                        invariant
                            x + 3 <= u16::MAX,
                            a < row <= b || (a + 1 == row && b <= a),
                            spans@ == before + gap_fill((x + 3) as u16, a as int, row as int),
                        decreases b - row,
                    {
                        spans.push(GlyphSpan { x: x + 3, y: row, glyph: Glyph::Vertical });
                        proof {
                            assert(spans@ =~= before + gap_fill((x + 3) as u16, a as int, row + 1));
                        }
                        row += 1;
                    }
                    proof {
                        if b <= a {
                            assert(gap_fill((x + 3) as u16, a as int, b as int) =~= Seq::<GlyphSpan>::empty());
                            assert(gap_fill((x + 3) as u16, a as int, row as int) =~= Seq::<GlyphSpan>::empty());
                        }
                    }
                } else {
                    proof {
                        assert(gap_fill((x + 3) as u16, a as int, b as int) =~= Seq::<GlyphSpan>::empty());
                        assert(spans@ =~= before + gap_fill((x + 3) as u16, a as int, b as int));
                    }
                }
                proof {
                    let t = rows@.take(i + 1);
                    assert(t.drop_last() =~= rows@.take(i as int));
                    assert(t[t.len() - 2] == a && t.last() == b);
                    assert(spans@ =~= head + gap_fills((x + 3) as u16, t));
                }
                i += 1;
            }
            proof {
                if rows@.len() > 0 {
                    assert(rows@.take(i as int) =~= rows@);
                } else {
                    assert(gap_fills((x + 3) as u16, rows@) =~= Seq::<GlyphSpan>::empty());
                    assert(spans@ =~= head + gap_fills((x + 3) as u16, rows@));
                }
            }
        },
        ExecutionOrder::Parallel => {
            if rows.len() == 0 {
                return spans;
            }
            let ghost head = spans@;
            let mut i: usize = 0;
            while i < rows.len() - 1
                invariant
                    x + 3 <= u16::MAX,
                    rows@.len() > 0,
                    i <= rows@.len() - 1,
                    head == seq![GlyphSpan { x: (x + 1) as u16, y, glyph: Glyph::Corner }],
                    spans@ == head + Seq::new(
                        i as nat,
                        |k: int| GlyphSpan { x: (x + 1) as u16, y: rows@[k], glyph: Glyph::Vertical },
                    ),
                decreases rows@.len() - i,
            {
                spans.push(GlyphSpan { x: x + 1, y: rows[i], glyph: Glyph::Vertical });
                proof {
                    assert(spans@ =~= head + Seq::new(
                        (i + 1) as nat,
                        |k: int| GlyphSpan { x: (x + 1) as u16, y: rows@[k], glyph: Glyph::Vertical },
                    ));
                }
                i += 1;
            }
            spans.push(GlyphSpan { x: x + 1, y: rows[rows.len() - 1], glyph: Glyph::Merge });
            proof {
                assert(spans@ =~= joiner_layout(x, y, rows@, order));
            }
        },
    }
    spans
}

} // verus!
