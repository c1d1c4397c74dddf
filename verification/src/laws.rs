//! Cross-query laws of the text-geometry layer: the geometric round
//! trip between the layout-wide hit-test and the inverse position
//! lookup.

use crate::geometry::MAX_LINE_HEIGHT;
use crate::text_layout::{hit_spec, index_pos_spec, lines_wf};
use crate::wrapped_line::WrappedLine;
use vstd::prelude::*;

verus! {

/// The horizontal advance of the glyph at character offset `ix`: how far
/// its line extends from that boundary to the next.
pub open spec fn glyph_advance_at(lines: Seq<WrappedLine>, ix: int) -> int
    decreases lines.len(),
{
    if lines.len() == 0 {
        0
    } else if ix < lines[0].len_spec() {
        lines[0].xs@[ix + 1] - lines[0].xs@[ix]
    } else {
        glyph_advance_at(lines.drop_first(), ix - lines[0].len_spec() - 1)
    }
}

proof fn lemma_hit_start_shift(
    lines: Seq<WrappedLine>,
    lh: int,
    x: int,
    y: int,
    s1: int,
    s2: int,
)
    ensures
        hit_spec(lines, lh, x, y, s1) matches Ok(m) ==> hit_spec(lines, lh, x, y, s2) == Ok::<
            int,
            int,
        >(m - s1 + s2),
    decreases lines.len(),
{
    if lines.len() == 0 {
    } else if y > lines[0].rows_spec() * lh {
        lemma_hit_start_shift(
            lines.drop_first(),
            lh,
            x,
            y - lines[0].rows_spec() * lh,
            s1 + lines[0].len_spec() + 1,
            s2 + lines[0].len_spec() + 1,
        );
    } else {
    }
}

/// An exact hit on the layout, mapped back through the inverse query,
/// lands on the glyph containing the queried point: the reported position
/// lies at most one line height above the point's vertical coordinate and
/// at most the glyph's advance to the left of its horizontal one.
pub proof fn lemma_hit_round_trip(lines: Seq<WrappedLine>, lh: int, x: int, y: int, k: int)
    requires
        lines_wf(lines),
        0 < lh <= MAX_LINE_HEIGHT,
        0 <= y,
        hit_spec(lines, lh, x, y, 0) == Ok::<int, int>(k),
    ensures
        0 <= k,
        ({
            let q = index_pos_spec(lines, lh, k);
            &&& q matches Some(p)
            &&& p.1 <= y < p.1 + lh
            &&& p.0 <= x < p.0 + glyph_advance_at(lines, k)
        }),
    decreases lines.len(),
{
    let h0 = lines[0].rows_spec() * lh;
    if y > h0 {
        let rest = lines.drop_first();
        assert(lines_wf(rest)) by {
            assert forall|i: int| 0 <= i < rest.len() implies (#[trigger] rest[i]).wf() by {
                assert(rest[i] == lines[i + 1]);
            }
        }
        lemma_hit_start_shift(rest, lh, x, y - h0, lines[0].len_spec() + 1, 0);
        let k2 = k - lines[0].len_spec() - 1;
        assert(hit_spec(rest, lh, x, y - h0, 0) == Ok::<int, int>(k2));
        lemma_hit_round_trip(rest, lh, x, y - h0, k2);
        assert(k > lines[0].len_spec());
    } else {
        assert(lines[0].index_for_position_spec(x, y, lh) == Ok::<int, int>(k));
        assert(lines[0].wf());
        crate::wrapped_line::lemma_line_hit_round_trip(lines[0], x, y, lh, k);
    }
}

} // verus!
