//! A shaped, wrapped line: the immutable value the text shaper produces.
//! It knows its source character length, the horizontal extent of every
//! character boundary, and the positions where the line soft-wraps onto
//! further visual rows; from these it answers a horizontal hit-test and
//! its inverse.

use crate::geometry::{lemma_mul_bounds, lemma_mul_succ, Point, Size, MAX_COORD, MAX_LINE_HEIGHT, MAX_LINE_ROWS};
use vstd::prelude::*;

verus! {

/// Converts an index result into its mathematical form.
pub open spec fn as_int_result(r: Result<usize, usize>) -> Result<int, int> {
    match r {
        Ok(i) => Ok(i as int),
        Err(i) => Err(i as int),
    }
}

/// How many of the sorted wrap positions lie at or before `ix`.
pub open spec fn count_leq(bs: Seq<usize>, ix: int) -> int
    decreases bs.len(),
{
    if bs.len() == 0 {
        0
    } else if bs[0] <= ix {
        1 + count_leq(bs.drop_first(), ix)
    } else {
        0
    }
}

/// The visual row within a line that holds vertical offset `y`, for rows
/// of height `lh`, clamped to the last of `rows` rows.
pub open spec fn row_of_y(y: int, lh: int, rows: int) -> int
    decreases rows,
{
    if rows <= 1 || y < lh {
        0
    } else {
        1 + row_of_y(y - lh, lh, rows - 1)
    }
}

/// A shaped line: its source text, the horizontal extent `xs[i]` of the
/// first `i` characters, and the character indices where the line wraps
/// onto a new visual row.
pub struct WrappedLine {
    pub text: String,
    pub xs: Vec<i64>,
    pub boundaries: Vec<usize>,
}

/// Well-formedness of a line's parts: one extent per character boundary,
/// starting at zero, monotone and capped; wrap positions strictly
/// increasing within the text; a capped number of visual rows.
pub open spec fn line_parts_wf(text: Seq<char>, xs: Seq<i64>, boundaries: Seq<usize>) -> bool {
    &&& xs.len() == text.len() + 1
    &&& xs[0] == 0
    &&& forall|i: int| 0 <= i < xs.len() ==> 0 <= #[trigger] xs[i] <= MAX_COORD
    &&& forall|i: int, j: int| 0 <= i <= j < xs.len() ==> #[trigger] xs[i] <= #[trigger] xs[j]
    &&& forall|i: int| 0 <= i < boundaries.len() ==> 1 <= #[trigger] boundaries[i] <= text.len()
    &&& forall|i: int|
        0 <= i < boundaries.len() - 1 ==> #[trigger] boundaries[i] < boundaries[i + 1]
    &&& boundaries.len() + 1 <= MAX_LINE_ROWS
}

impl WrappedLine {
    /// The line is well formed.
    pub open spec fn wf(self) -> bool {
        line_parts_wf(self.text@, self.xs@, self.boundaries@)
    }

    /// The line's source length, in characters.
    pub open spec fn len_spec(self) -> int {
        self.text@.len() as int
    }

    /// How many visual rows the line spans.
    pub open spec fn rows_spec(self) -> int {
        self.boundaries@.len() + 1 as int
    }

    /// The line's full horizontal extent.
    pub open spec fn width_spec(self) -> int {
        self.xs@[self.len_spec()] as int
    }

    /// The character index where visual row `r` starts.
    pub open spec fn row_start(self, r: int) -> int {
        if r == 0 {
            0
        } else {
            self.boundaries@[r - 1] as int
        }
    }

    /// The character index where visual row `r` ends.
    pub open spec fn row_end(self, r: int) -> int {
        if r == self.rows_spec() - 1 {
            self.len_spec()
        } else {
            self.boundaries@[r] as int
        }
    }

    /// The visual row that character boundary `ix` falls on: a boundary
    /// index exactly at a wrap position belongs to the row the wrap opens.
    pub open spec fn row_of_index(self, ix: int) -> int {
        count_leq(self.boundaries@, ix)
    }

    /// The position of character boundary `ix` within the line: horizontal
    /// offset from its visual row's start, and the row's vertical offset.
    pub open spec fn position_for_index_spec(self, ix: int, lh: int) -> (int, int) {
        let r = self.row_of_index(ix);
        (self.xs@[ix] - self.xs@[self.row_start(r)], r * lh)
    }

    /// The first character boundary at or after `i` (and before `e`) whose
    /// following character extends beyond horizontal offset `x` measured
    /// from boundary `base`; `e` when none does.
    pub open spec fn find_glyph(self, base: int, i: int, e: int, x: int) -> int
        decreases e - i,
    {
        if i >= e {
            e
        } else if x < self.xs@[i + 1] - self.xs@[base] {
            i
        } else {
            self.find_glyph(base, i + 1, e, x)
        }
    }

    /// The hit-test for a point within the line, relative to the line's
    /// origin. `Ok` is an exact hit on a character; `Err` is a miss
    /// carrying the nearest boundary: 0 above the line, the line length
    /// below it, a row's first boundary left of it and its last boundary
    /// right of it.
    pub open spec fn index_for_position_spec(self, x: int, y: int, lh: int) -> Result<int, int> {
        if y < 0 {
            Err(0)
        } else if y >= self.rows_spec() * lh {
            Err(self.len_spec())
        } else {
            let r = row_of_y(y, lh, self.rows_spec());
            let s = self.row_start(r);
            let e = self.row_end(r);
            if x < 0 {
                Err(s)
            } else if x >= self.xs@[e] - self.xs@[s] {
                Err(e)
            } else {
                Ok(self.find_glyph(s, s, e, x))
            }
        }
    }

    /// Builds a shaped line after validating well-formedness; `None`
    /// exactly when the parts are not well formed.
    pub fn new(text: String, xs: Vec<i64>, boundaries: Vec<usize>) -> (r: Option<WrappedLine>)
        ensures
            r matches Some(l) ==> l.wf() && l.text@ == text@ && l.xs@ == xs@ && l.boundaries@
                == boundaries@,
            r.is_some() <==> line_parts_wf(text@, xs@, boundaries@),
    {
        let text_len = text.as_str().unicode_len();
        if xs.len() == 0 || xs.len() - 1 != text_len {
            return None;
        }
        if xs[0] != 0 {
            return None;
        }
        if xs[xs.len() - 1] > MAX_COORD {
            return None;
        }
        let mut i: usize = 0;
        while i < xs.len() - 1
            invariant
                xs@.len() >= 1,
                i < xs@.len(),
                forall|k: int| 0 <= k < i ==> #[trigger] xs@[k] <= xs@[k + 1],
            decreases xs@.len() - i,
        {
            if xs[i] > xs[i + 1] {
                proof {
                    assert(!line_parts_wf(text@, xs@, boundaries@)) by {
                        assert(!(xs@[i as int] <= xs@[i as int + 1]));
                    }
                }
                return None;
            }
            i = i + 1;
        }
        proof {
            lemma_adjacent_monotone(xs@);
            assert forall|a: int| 0 <= a < xs@.len() implies 0 <= #[trigger] xs@[a]
                <= MAX_COORD by {
                lemma_monotone_at(xs@, 0, a);
                lemma_monotone_at(xs@, a, xs@.len() - 1);
            }
        }
        if boundaries.len() >= MAX_LINE_ROWS {
            return None;
        }
        let mut j: usize = 0;
        while j < boundaries.len()
            invariant
                j <= boundaries@.len(),
                forall|k: int|
                    0 <= k < j ==> 1 <= #[trigger] boundaries@[k] && boundaries@[k] <= text@.len(),
                forall|k: int| 0 <= k < j - 1 ==> #[trigger] boundaries@[k] < boundaries@[k + 1],
                xs@.len() == text@.len() + 1,
            decreases boundaries@.len() - j,
        {
            let b = boundaries[j];
            if b < 1 || b > xs.len() - 1 {
                return None;
            }
            if j > 0 && boundaries[j - 1] >= b {
                proof {
                    assert(!line_parts_wf(text@, xs@, boundaries@)) by {
                        assert(!(boundaries@[j as int - 1] < boundaries@[j as int - 1 + 1]));
                    }
                }
                return None;
            }
            proof {
                if j > 0 {
                    assert(boundaries@[j as int - 1] < boundaries@[j as int]);
                }
            }
            j = j + 1;
        }
        Some(WrappedLine { text, xs, boundaries })
    }

    /// The line's source length, in characters.
    pub fn len(&self) -> (r: usize)
        requires
            self.wf(),
        ensures
            r == self.len_spec(),
    {
        self.xs.len() - 1
    }

    /// The line's rendered size given a line height: its horizontal
    /// extent, and one line height per visual row.
    pub fn size(&self, line_height: i64) -> (r: Size)
        requires
            self.wf(),
            0 <= line_height <= MAX_LINE_HEIGHT,
        ensures
            r.width == self.width_spec(),
            r.height == self.rows_spec() * line_height,
    {
        let rows = self.boundaries.len() + 1;
        proof {
            lemma_mul_bounds(
                rows as int,
                line_height as int,
                MAX_LINE_ROWS as int,
                MAX_LINE_HEIGHT as int,
            );
        }
        Size { width: self.xs[self.xs.len() - 1], height: (rows as i64) * line_height }
    }

    /// Maps a character boundary within the line to its position relative
    /// to the line's origin; `None` when the index falls past the line.
    #[verifier::loop_isolation(false)]
    pub fn position_for_index(&self, ix: usize, line_height: i64) -> (r: Option<Point>)
        requires
            self.wf(),
            0 <= line_height <= MAX_LINE_HEIGHT,
        ensures
            r.is_some() <==> ix <= self.len_spec(),
            r matches Some(p) ==> p.x == self.position_for_index_spec(
                ix as int,
                line_height as int,
            ).0 && p.y == self.position_for_index_spec(ix as int, line_height as int).1,
            r matches Some(p) ==> -MAX_COORD <= p.x <= MAX_COORD && 0 <= p.y <= MAX_LINE_ROWS
                * MAX_LINE_HEIGHT,
    {
        if ix > self.xs.len() - 1 {
            return None;
        }
        let mut r: usize = 0;
        proof {
            assert(self.boundaries@.skip(0) =~= self.boundaries@);
        }
        while r < self.boundaries.len() && self.boundaries[r] <= ix
            invariant
                r <= self.boundaries@.len(),
                self.wf(),
                ix <= self.len_spec(),
                count_leq(self.boundaries@, ix as int) == r + count_leq(
                    self.boundaries@.skip(r as int),
                    ix as int,
                ),
            decreases self.boundaries@.len() - r,
        {
            proof {
                assert(self.boundaries@.skip(r as int)[0] == self.boundaries@[r as int]);
                assert(self.boundaries@.skip(r as int).drop_first() =~= self.boundaries@.skip(
                    r as int + 1,
                ));
            }
            r = r + 1;
        }
        proof {
            if r < self.boundaries@.len() {
                assert(self.boundaries@.skip(r as int)[0] == self.boundaries@[r as int]);
                assert(count_leq(self.boundaries@.skip(r as int), ix as int) == 0);
            } else {
                assert(self.boundaries@.skip(r as int) =~= Seq::<usize>::empty());
            }
            assert(self.row_of_index(ix as int) == r);
        }
        let s: usize = if r == 0 {
            0
        } else {
            self.boundaries[r - 1]
        };
        let x = self.xs[ix] - self.xs[s];
        proof {
            lemma_mul_bounds(
                r as int,
                line_height as int,
                MAX_LINE_ROWS as int,
                MAX_LINE_HEIGHT as int,
            );
        }
        let y = (r as i64) * line_height;
        Some(Point { x, y })
    }

    /// The hit-test for a point relative to the line's origin: an exact
    /// character hit, or the nearest boundary as a miss.
    #[verifier::loop_isolation(false)]
    pub fn index_for_position(&self, position: Point, line_height: i64) -> (r: Result<
        usize,
        usize,
    >)
        requires
            self.wf(),
            0 <= line_height <= MAX_LINE_HEIGHT,
        ensures
            as_int_result(r) == self.index_for_position_spec(
                position.x as int,
                position.y as int,
                line_height as int,
            ),
            r matches Ok(ix) ==> ix <= self.len_spec(),
            r matches Err(ix) ==> ix <= self.len_spec(),
    {
        let len = self.xs.len() - 1;
        if position.y < 0 {
            return Err(0);
        }
        let rows = self.boundaries.len() + 1;
        proof {
            lemma_mul_bounds(
                rows as int,
                line_height as int,
                MAX_LINE_ROWS as int,
                MAX_LINE_HEIGHT as int,
            );
        }
        let height = (rows as i64) * line_height;
        if position.y >= height {
            return Err(len);
        }
        let ghost rows_int = rows as int;
        let mut r: usize = 0;
        let mut y = position.y;
        while r + 1 < rows && y >= line_height
            invariant
                self.wf(),
                rows == self.boundaries@.len() + 1,
                r < rows,
                0 <= y,
                position.y == y + r * line_height,
                0 <= line_height <= MAX_LINE_HEIGHT,
                row_of_y(position.y as int, line_height as int, rows as int) == r + row_of_y(
                    y as int,
                    line_height as int,
                    rows - r,
                ),
            decreases rows - r,
        {
            proof {
                lemma_mul_succ(r as int, line_height as int);
            }
            y = y - line_height;
            r = r + 1;
        }
        proof {
            assert(row_of_y(y as int, line_height as int, (rows - r) as int) == 0);
            assert(row_of_y(position.y as int, line_height as int, rows as int) == r);
        }
        let s: usize = if r == 0 {
            0
        } else {
            self.boundaries[r - 1]
        };
        let e: usize = if r == rows - 1 {
            len
        } else {
            self.boundaries[r]
        };
        proof {
            assert(s as int == self.row_start(r as int));
            assert(e as int == self.row_end(r as int));
            if r > 0 {
                assert(self.boundaries@[r - 1] <= self.text@.len());
            }
        }
        if position.x < 0 {
            return Err(s);
        }
        let base = self.xs[s];
        if position.x >= self.xs[e] - base {
            return Err(e);
        }
        let mut i = s;
        proof {
            lemma_row_start_le_end(*self, r as int);
        }
        loop
            invariant
                self.wf(),
                s <= i < e,
                e <= self.len_spec(),
                base == self.xs@[s as int],
                position.x >= self.xs@[i as int] - base,
                position.x < self.xs@[e as int] - base,
                self.find_glyph(s as int, s as int, e as int, position.x as int) == self.find_glyph(
                    s as int,
                    i as int,
                    e as int,
                    position.x as int,
                ),
            decreases e - i,
        {
            if position.x < self.xs[i + 1] - base {
                return Ok(i);
            }
            proof {
                if i + 1 == e {
                    assert(false);
                }
            }
            i = i + 1;
        }
    }
}

/// From adjacent monotonicity of the extents, any earlier boundary's
/// extent is at most any later one's.
proof fn lemma_monotone_at(xs: Seq<i64>, i: int, j: int)
    requires
        forall|k: int| 0 <= k < xs.len() - 1 ==> #[trigger] xs[k] <= xs[k + 1],
        0 <= i <= j < xs.len(),
    ensures
        xs[i] <= xs[j],
    decreases j - i,
{
    if i < j {
        lemma_monotone_at(xs, i, j - 1);
        assert(xs[j - 1] <= xs[j - 1 + 1]);
    }
}

proof fn lemma_adjacent_monotone(xs: Seq<i64>)
    requires
        forall|k: int| 0 <= k < xs.len() - 1 ==> #[trigger] xs[k] <= xs[k + 1],
    ensures
        forall|i: int, j: int| 0 <= i <= j < xs.len() ==> #[trigger] xs[i] <= #[trigger] xs[j],
{
    assert forall|i: int, j: int| 0 <= i <= j < xs.len() implies #[trigger] xs[i] <= #[trigger] xs[
        j
    ] by {
        lemma_monotone_at(xs, i, j);
    }
}

/// The row found for a vertical offset brackets it: the offset lies at or
/// below the row's top, and above its bottom whenever it lies above the
/// last row's bottom.
proof fn lemma_row_of_y_brackets(y: int, lh: int, rows: int)
    requires
        0 <= y,
        0 < lh,
        1 <= rows,
        y < rows * lh,
    ensures
        0 <= row_of_y(y, lh, rows) < rows,
        row_of_y(y, lh, rows) * lh <= y < (row_of_y(y, lh, rows) + 1) * lh,
    decreases rows,
{
    let r = row_of_y(y, lh, rows);
    if rows <= 1 || y < lh {
        assert(r == 0);
        if rows <= 1 {
            assert(y < 1 * lh) by (nonlinear_arith)
                requires
                    y < rows * lh,
                    rows <= 1,
                    0 < lh,
            ;
        }
    } else {
        assert((rows - 1) * lh == rows * lh - lh) by (nonlinear_arith);
        lemma_row_of_y_brackets(y - lh, lh, rows - 1);
        let r2 = row_of_y(y - lh, lh, rows - 1);
        assert(r == 1 + r2);
        assert((r2 + 1) * lh + lh == (r2 + 2) * lh) by (nonlinear_arith);
        assert(r2 * lh + lh == (r2 + 1) * lh) by (nonlinear_arith);
    }
}

/// `count_leq` of a sorted sequence is `r` exactly when the first `r`
/// entries lie at or below the value and the next lies above it.
proof fn lemma_count_leq_at(bs: Seq<usize>, v: int, r: int)
    requires
        0 <= r <= bs.len(),
        forall|i: int, j: int| 0 <= i <= j < bs.len() ==> #[trigger] bs[i] <= #[trigger] bs[j],
        r > 0 ==> bs[r - 1] <= v,
        r < bs.len() ==> bs[r] > v,
    ensures
        count_leq(bs, v) == r,
    decreases bs.len(),
{
    if bs.len() == 0 {
    } else if r == 0 {
        assert(bs[0] > v);
    } else {
        assert(bs[0] <= bs[r - 1]);
        let bd = bs.drop_first();
        assert forall|i: int, j: int| 0 <= i <= j < bd.len() implies #[trigger] bd[i]
            <= #[trigger] bd[j] by {
            assert(bd[i] == bs[i + 1]);
            assert(bd[j] == bs[j + 1]);
        }
        if r - 1 > 0 {
            assert(bd[r - 2] == bs[r - 1]);
        }
        if r - 1 < bd.len() {
            assert(bd[r - 1] == bs[r]);
        }
        lemma_count_leq_at(bd, v, r - 1);
    }
}

/// `find_glyph` brackets the offset it finds: the glyph starts at or
/// before the offset and its next boundary lies beyond it.
proof fn lemma_find_glyph_brackets(line: WrappedLine, base: int, i: int, e: int, x: int)
    requires
        line.wf(),
        0 <= base < line.xs@.len(),
        base <= i <= e < line.xs@.len(),
        x >= line.xs@[i] - line.xs@[base],
        x < line.xs@[e] - line.xs@[base],
    ensures
        ({
            let g = line.find_glyph(base, i, e, x);
            &&& i <= g < e
            &&& line.xs@[g] - line.xs@[base] <= x
            &&& x < line.xs@[g + 1] - line.xs@[base]
        }),
    decreases e - i,
{
    if i < e {
        if x < line.xs@[i + 1] - line.xs@[base] {
        } else {
            lemma_find_glyph_brackets(line, base, i + 1, e, x);
        }
    }
}

/// An exact within-line hit, mapped back through the inverse query, lands
/// on the glyph containing the queried point: the position lies at most
/// one line height above the point and at most the glyph's advance to its
/// left.
pub proof fn lemma_line_hit_round_trip(line: WrappedLine, x: int, y: int, lh: int, i: int)
    requires
        line.wf(),
        0 < lh <= MAX_LINE_HEIGHT,
        line.index_for_position_spec(x, y, lh) == Ok::<int, int>(i),
    ensures
        0 <= i < line.len_spec(),
        ({
            let q = line.position_for_index_spec(i, lh);
            &&& q.1 <= y < q.1 + lh
            &&& q.0 <= x < q.0 + (line.xs@[i + 1] - line.xs@[i])
        }),
{
    let rows = line.rows_spec();
    assert(0 <= y && y < rows * lh);
    let r = row_of_y(y, lh, rows);
    lemma_row_of_y_brackets(y, lh, rows);
    let s = line.row_start(r);
    let e = line.row_end(r);
    lemma_row_start_le_end(line, r);
    assert(0 <= x && x < line.xs@[e] - line.xs@[s]);
    lemma_find_glyph_brackets(line, s, s, e, x);
    assert(i == line.find_glyph(s, s, e, x));
    assert(s <= i < e);
    let bs = line.boundaries@;
    assert forall|a: int, b: int| 0 <= a <= b < bs.len() implies #[trigger] bs[a] <= #[trigger] bs[
        b
    ] by {
        if a < b {
            lemma_boundaries_sorted(line, a, b);
        }
    }
    assert(count_leq(bs, i) == r) by {
        if r > 0 {
            assert(bs[r - 1] == line.row_start(r));
        }
        if r < bs.len() {
            assert(bs[r] == line.row_end(r));
        }
        lemma_count_leq_at(bs, i, r);
    }
    assert(line.row_of_index(i) == r);
    assert((r + 1) * lh == r * lh + lh) by (nonlinear_arith);
    let q = line.position_for_index_spec(i, lh);
    assert(q.1 == r * lh);
    assert(q.0 == line.xs@[i] - line.xs@[s]);
}

/// Wrap positions increase strictly along a well-formed line.
proof fn lemma_boundaries_sorted(line: WrappedLine, a: int, b: int)
    requires
        line.wf(),
        0 <= a < b < line.boundaries@.len(),
    ensures
        line.boundaries@[a] < line.boundaries@[b],
    decreases b - a,
{
    if a + 1 == b {
        assert(line.boundaries@[a] < line.boundaries@[a + 1]);
    } else {
        lemma_boundaries_sorted(line, a, b - 1);
        assert(line.boundaries@[b - 1] < line.boundaries@[b - 1 + 1]);
    }
}

/// Within a well-formed line, every visual row starts no later than it
/// ends.
pub proof fn lemma_row_start_le_end(line: WrappedLine, r: int)
    requires
        line.wf(),
        0 <= r < line.rows_spec(),
    ensures
        0 <= line.row_start(r) <= line.row_end(r) <= line.len_spec(),
{
}

} // verus!
