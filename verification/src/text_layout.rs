//! The text-layout cache: it owns the shaped, wrapped lines for one piece
//! of styled text, decides when a cached measurement can be reused, binds
//! on-screen bounds, and answers geometry queries between character
//! offsets and pixel coordinates.

use crate::geometry::{
    lemma_mul_bounds, lemma_mul_succ, Bounds, Point, Size, MAX_LINES, MAX_LINE_HEIGHT,
    MAX_LINE_ROWS, MAX_TEXT,
};
use crate::style::{AvailableSpace, TextStyle, Truncate, WhiteSpace};
use crate::wrapped_line::{as_int_result, WrappedLine};
use vstd::prelude::*;

verus! {

/// Every line in the sequence is well formed.
pub open spec fn lines_wf(lines: Seq<WrappedLine>) -> bool {
    forall|i: int| 0 <= i < lines.len() ==> (#[trigger] lines[i]).wf()
}

/// The total rendered height of the lines: one line height per visual row.
pub open spec fn total_height(lines: Seq<WrappedLine>, lh: int) -> int
    decreases lines.len(),
{
    if lines.len() == 0 {
        0
    } else {
        total_height(lines.drop_last(), lh) + lines.last().rows_spec() * lh
    }
}

/// The widest line's horizontal extent.
pub open spec fn max_width(lines: Seq<WrappedLine>) -> int
    decreases lines.len(),
{
    if lines.len() == 0 {
        0
    } else if lines.last().width_spec() > max_width(lines.drop_last()) {
        lines.last().width_spec()
    } else {
        max_width(lines.drop_last())
    }
}

/// The character offset where line `i` starts: every earlier line's
/// length plus one separator per line boundary.
pub open spec fn line_start_ix(lines: Seq<WrappedLine>, i: int) -> int
    decreases i,
{
    if i <= 0 {
        0
    } else {
        line_start_ix(lines, i - 1) + lines[i - 1].len_spec() + 1
    }
}

/// Line starts never decrease along the line sequence.
pub proof fn lemma_line_start_monotone(lines: Seq<WrappedLine>, i: int, j: int)
    requires
        0 <= i <= j,
    ensures
        line_start_ix(lines, i) <= line_start_ix(lines, j),
    decreases j - i,
{
    if i < j {
        lemma_line_start_monotone(lines, i, j - 1);
    }
}

/// Prefixes of the line sequence never render taller than the whole.
pub proof fn lemma_total_height_prefix(lines: Seq<WrappedLine>, lh: int, i: int)
    requires
        0 <= i <= lines.len(),
        0 <= lh,
    ensures
        total_height(lines.take(i), lh) <= total_height(lines, lh),
        0 <= total_height(lines.take(i), lh),
    decreases lines.len(),
{
    if lines.len() == 0 {
        assert(lines.take(i) =~= lines);
    } else if i == lines.len() {
        assert(lines.take(i) =~= lines);
        lemma_total_height_prefix(lines.drop_last(), lh, lines.len() - 1);
        assert(lines.drop_last().take(lines.len() - 1) =~= lines.drop_last());
        lemma_mul_bounds(0, 0, lines.last().rows_spec(), lh);
        assert(0 <= lines.last().rows_spec() * lh) by (nonlinear_arith)
            requires
                lines.last().rows_spec() >= 1,
                lh >= 0,
        ;
    } else {
        lemma_total_height_prefix(lines.drop_last(), lh, i);
        assert(lines.drop_last().take(i) =~= lines.take(i));
        assert(0 <= lines.last().rows_spec() * lh) by (nonlinear_arith)
            requires
                lines.last().rows_spec() >= 1,
                lh >= 0,
        ;
    }
}

/// Shifts a within-line hit result by the line's starting offset.
pub open spec fn shift_result(r: Result<int, int>, off: int) -> Result<int, int> {
    match r {
        Ok(i) => Ok(i + off),
        Err(i) => Err(i + off),
    }
}

/// The layout-wide hit-test over a line sequence: positions are relative
/// to the content origin; `start_ix` is the character offset of the first
/// line. The first line whose vertical band holds `y` answers, offset by
/// its starting offset; below all lines the miss lands at the end of the
/// last line.
pub open spec fn hit_spec(lines: Seq<WrappedLine>, lh: int, x: int, y: int, start_ix: int) -> Result<
    int,
    int,
>
    decreases lines.len(),
{
    if lines.len() == 0 {
        Err(
            if start_ix > 0 {
                start_ix - 1
            } else {
                0
            },
        )
    } else if y > lines[0].rows_spec() * lh {
        hit_spec(
            lines.drop_first(),
            lh,
            x,
            y - lines[0].rows_spec() * lh,
            start_ix + lines[0].len_spec() + 1,
        )
    } else {
        shift_result(lines[0].index_for_position_spec(x, y, lh), start_ix)
    }
}

/// The inverse query over a line sequence: the position, relative to the
/// content origin, of character offset `ix`. The first line whose span
/// holds `ix` answers (an offset exactly at a line's end resolves within
/// that line); `None` past all text.
pub open spec fn index_pos_spec(lines: Seq<WrappedLine>, lh: int, ix: int) -> Option<(int, int)>
    decreases lines.len(),
{
    if lines.len() == 0 {
        None
    } else if ix <= lines[0].len_spec() {
        Some(lines[0].position_for_index_spec(ix, lh))
    } else {
        match index_pos_spec(lines.drop_first(), lh, ix - lines[0].len_spec() - 1) {
            None => None,
            Some(p) => Some((p.0, p.1 + lines[0].rows_spec() * lh)),
        }
    }
}

/// The text of every line, in order.
pub open spec fn texts_of(lines: Seq<WrappedLine>) -> Seq<Seq<char>> {
    lines.map_values(|l: WrappedLine| l.text@)
}

/// The segments joined with a single separator per boundary.
pub open spec fn join_texts(ts: Seq<Seq<char>>) -> Seq<char>
    decreases ts.len(),
{
    if ts.len() == 0 {
        Seq::empty()
    } else if ts.len() == 1 {
        ts[0]
    } else {
        join_texts(ts.drop_last()) + seq!['\n'] + ts.last()
    }
}

/// What a layout pass decided: reuse the cached size, or ask the shaper
/// to wrap (and possibly truncate) the text again.
#[derive(Clone, Copy, PartialEq, Eq, Debug)]
pub enum LayoutPlan {
    /// The cached size stands; no re-shaping is needed.
    Reuse(Size),
    /// The shaper must run with these parameters.
    Shape(ShapeRequest),
}

/// The parameters of a shaping request.
#[derive(Clone, Copy, PartialEq, Eq, Debug)]
pub struct ShapeRequest {
    /// Wrap lines at this width; `None` leaves lines unwrapped.
    pub wrap_width: Option<i64>,
    /// Cut overlong text at this width; `None` leaves it uncut.
    pub truncate_width: Option<i64>,
    /// Inject an ellipsis marker where text is cut.
    pub ellipsis: bool,
}

/// The width the measurement pass supplies: the known dimension when
/// fixed, else the available space when definite.
pub open spec fn width_from(known: Option<i64>, avail: AvailableSpace) -> Option<i64> {
    match known {
        Some(w) => Some(w),
        None => match avail {
            AvailableSpace::Definite(x) => Some(x),
            _ => None,
        },
    }
}

/// The wrap width a layout pass resolves: a supplied width when the style
/// allows wrapping, none otherwise.
pub open spec fn wrap_width_for(
    style: TextStyle,
    known: Option<i64>,
    avail: AvailableSpace,
) -> Option<i64> {
    if style.white_space == WhiteSpace::Normal {
        width_from(known, avail)
    } else {
        None
    }
}

/// The truncation width a layout pass resolves: a supplied width when the
/// style asks for truncation, none otherwise.
pub open spec fn truncate_width_for(
    style: TextStyle,
    known: Option<i64>,
    avail: AvailableSpace,
) -> Option<i64> {
    match style.truncate {
        Some(_) => width_from(known, avail),
        None => None,
    }
}

/// The layout state for one piece of text: empty until the first layout,
/// bound to on-screen bounds by prepaint, then ready for painting and
/// geometry queries.
pub struct TextLayout {
    lines: Vec<WrappedLine>,
    line_height: i64,
    wrap_width: Option<i64>,
    size: Option<Size>,
    bounds: Option<Bounds>,
}

impl TextLayout {
    /// The shaped lines of the last layout.
    pub closed spec fn lines_spec(self) -> Seq<WrappedLine> {
        self.lines@
    }

    /// The pixel line height of the last layout.
    pub closed spec fn line_height_spec(self) -> i64 {
        self.line_height
    }

    /// The wrap width of the last layout.
    pub closed spec fn wrap_width_spec(self) -> Option<i64> {
        self.wrap_width
    }

    /// The cached content size; `None` before the first layout.
    pub closed spec fn size_spec(self) -> Option<Size> {
        self.size
    }

    /// The bound on-screen placement; `None` before prepaint.
    pub closed spec fn bounds_spec(self) -> Option<Bounds> {
        self.bounds
    }

    /// The bound content origin.
    pub closed spec fn origin_spec(self) -> Point {
        match self.bounds {
            Some(b) => b.origin,
            None => Point { x: 0, y: 0 },
        }
    }

    /// Layout has produced a size.
    pub open spec fn laid_out(self) -> bool {
        self.size_spec().is_some()
    }

    /// Prepaint has bound on-screen bounds.
    pub open spec fn prepainted(self) -> bool {
        self.bounds_spec().is_some()
    }

    /// The cache invariant: before layout the state is empty and unbound;
    /// after layout the lines are well formed and capped, and the cached
    /// size is exactly the lines' computed extent; bounds are only ever
    /// set after a size, with an origin in coordinate range.
    pub open spec fn wf(self) -> bool {
        &&& (self.laid_out() ==> {
            &&& lines_wf(self.lines_spec())
            &&& self.lines_spec().len() <= MAX_LINES
            &&& 0 <= self.line_height_spec() <= MAX_LINE_HEIGHT
            &&& line_start_ix(self.lines_spec(), self.lines_spec().len() as int) <= MAX_TEXT
            &&& (self.size_spec() matches Some(sz) && sz.width == max_width(self.lines_spec())
                && sz.height == total_height(self.lines_spec(), self.line_height_spec() as int)
                && sz.height <= 0x10_0000_0000_0000)
        })
        &&& (!self.laid_out() ==> self.lines_spec().len() == 0 && !self.prepainted())
        &&& (self.prepainted() ==> self.laid_out() && self.origin_spec().in_range())
    }

    /// A fresh, empty layout: nothing measured, nothing bound.
    pub fn new() -> (r: TextLayout)
        ensures
            r.wf(),
            !r.laid_out(),
            !r.prepainted(),
    {
        TextLayout { lines: Vec::new(), line_height: 0, wrap_width: None, size: None, bounds: None }
    }

    /// Decides a measurement pass: when a size is cached and either no
    /// wrap width is requested or the requested width equals the cached
    /// one, the cached size is reused; otherwise a shaping request is
    /// produced with the resolved wrap and truncation widths.
    pub fn prepare_layout(
        &self,
        style: &TextStyle,
        known_width: Option<i64>,
        available_width: AvailableSpace,
    ) -> (r: LayoutPlan)
        ensures
            ({
                let ww = wrap_width_for(*style, known_width, available_width);
                if self.laid_out() && (ww.is_none() || ww == self.wrap_width_spec()) {
                    self.size_spec() matches Some(sz) && r == LayoutPlan::Reuse(sz)
                } else {
                    r == LayoutPlan::Shape(
                        ShapeRequest {
                            wrap_width: ww,
                            truncate_width: truncate_width_for(
                                *style,
                                known_width,
                                available_width,
                            ),
                            ellipsis: style.truncate == Some(Truncate::Ellipsis),
                        },
                    )
                }
            }),
    {
        let supplied: Option<i64> = match known_width {
            Some(w) => Some(w),
            None => match available_width {
                AvailableSpace::Definite(x) => Some(x),
                _ => None,
            },
        };
        let wrap_width: Option<i64> = match style.white_space {
            WhiteSpace::Normal => supplied,
            WhiteSpace::NoWrap => None,
        };
        let truncate_width: Option<i64> = match style.truncate {
            Some(_) => supplied,
            None => None,
        };
        let ellipsis = match style.truncate {
            Some(Truncate::Ellipsis) => true,
            _ => false,
        };
        if let Some(sz) = &self.size {
            let reuse = match (&wrap_width, &self.wrap_width) {
                (None, _) => true,
                (Some(w), Some(c)) => *w == *c,
                (Some(_), None) => false,
            };
            if reuse {
                return LayoutPlan::Reuse(*sz);
            }
        }
        LayoutPlan::Shape(ShapeRequest { wrap_width, truncate_width, ellipsis })
    }

    /// Installs a shaping outcome. `Some` lines become the new layout and
    /// the returned size is their summed height and widest extent; `None`
    /// (the shaper failed) degrades to an empty zero-size layout. Either
    /// way the previous bounds are discarded and a size is cached.
    pub fn commit_layout(
        &mut self,
        shaped: Option<Vec<WrappedLine>>,
        line_height: i64,
        wrap_width: Option<i64>,
    ) -> (size: Size)
        requires
            0 <= line_height <= MAX_LINE_HEIGHT,
            shaped matches Some(ls) ==> lines_wf(ls@) && ls@.len() <= MAX_LINES && line_start_ix(
                ls@,
                ls@.len() as int,
            ) <= MAX_TEXT,
        ensures
            final(self).wf(),
            final(self).laid_out(),
            !final(self).prepainted(),
            final(self).line_height_spec() == line_height,
            final(self).wrap_width_spec() == wrap_width,
            final(self).lines_spec() == (match shaped {
                Some(ls) => ls@,
                None => Seq::<WrappedLine>::empty(),
            }),
            final(self).size_spec() == Some(size),
            size.width == max_width(final(self).lines_spec()),
            size.height == total_height(final(self).lines_spec(), line_height as int),
    {
        match shaped {
            None => {
                let size = Size::zero();
                self.lines = Vec::new();
                self.line_height = line_height;
                self.wrap_width = wrap_width;
                self.size = Some(size);
                self.bounds = None;
                size
            },
            Some(lines) => {
                let ghost ls = lines@;
                let mut width: i64 = 0;
                let mut height: i64 = 0;
                let mut i: usize = 0;
                while i < lines.len()
                    invariant
                        i <= lines@.len(),
                        lines@ == ls,
                        lines_wf(ls),
                        ls.len() <= MAX_LINES,
                        0 <= line_height <= MAX_LINE_HEIGHT,
                        width == max_width(ls.take(i as int)),
                        height == total_height(ls.take(i as int), line_height as int),
                        0 <= height <= (i as int) * 0x1_0000_0000,
                        0 <= width,
                    decreases lines@.len() - i,
                {
                    let line = &lines[i];
                    let line_size = line.size(line_height);
                    proof {
                        lemma_mul_bounds(
                            line.rows_spec(),
                            line_height as int,
                            MAX_LINE_ROWS as int,
                            MAX_LINE_HEIGHT as int,
                        );
                        lemma_mul_succ(i as int, 0x1_0000_0000);
                        assert(ls.take(i as int + 1).drop_last() =~= ls.take(i as int));
                        assert(ls.take(i as int + 1).last() == ls[i as int]);
                    }
                    height = height + line_size.height;
                    if line_size.width > width {
                        width = line_size.width;
                    }
                    i = i + 1;
                }
                proof {
                    assert(ls.take(ls.len() as int) =~= ls);
                    lemma_mul_bounds(ls.len() as int, 0x1_0000_0000, MAX_LINES as int, 0x1_0000_0000);
                }
                let size = Size { width, height };
                self.lines = lines;
                self.line_height = line_height;
                self.wrap_width = wrap_width;
                self.size = Some(size);
                self.bounds = None;
                size
            },
        }
    }

    /// Binds the on-screen bounds for painting and queries. Layout must
    /// already have produced a size; everything but the bounds is kept.
    pub fn prepaint(&mut self, bounds: Bounds)
        requires
            old(self).wf(),
            old(self).laid_out(),
            bounds.origin.in_range(),
        ensures
            final(self).wf(),
            final(self).prepainted(),
            final(self).bounds_spec() == Some(bounds),
            final(self).lines_spec() == old(self).lines_spec(),
            final(self).line_height_spec() == old(self).line_height_spec(),
            final(self).wrap_width_spec() == old(self).wrap_width_spec(),
            final(self).size_spec() == old(self).size_spec(),
    {
        self.bounds = Some(bounds);
    }

    /// Whether layout has produced a size yet.
    pub fn is_laid_out(&self) -> (b: bool)
        ensures
            b == self.laid_out(),
    {
        self.size.is_some()
    }

    /// Whether prepaint has bound on-screen bounds yet.
    pub fn is_prepainted(&self) -> (b: bool)
        ensures
            b == self.prepainted(),
    {
        self.bounds.is_some()
    }

    /// The bound on-screen placement. Prepaint must have occurred.
    pub fn bounds(&self) -> (r: Bounds)
        requires
            self.prepainted(),
        ensures
            Some(r) == self.bounds_spec(),
    {
        self.bounds.unwrap()
    }

    /// The pixel line height of the last layout, which must have occurred.
    pub fn line_height(&self) -> (r: i64)
        requires
            self.laid_out(),
        ensures
            r == self.line_height_spec(),
    {
        self.line_height
    }

    /// The logical text of the last layout, which must have occurred: the
    /// lines' texts joined with a single separator per line boundary.
    pub fn text(&self) -> (r: String)
        requires
            self.wf(),
            self.laid_out(),
        ensures
            r@ == join_texts(texts_of(self.lines_spec())),
    {
        let mut out = String::new();
        let mut i: usize = 0;
        proof {
            reveal_strlit("\n");
        }
        while i < self.lines.len()
            invariant
                i <= self.lines@.len(),
                lines_wf(self.lines@),
                out@ == join_texts(texts_of(self.lines@.take(i as int))),
            decreases self.lines@.len() - i,
        {
            let ghost ts_next = texts_of(self.lines@.take(i as int + 1));
            proof {
                reveal_strlit("\n");
                assert(ts_next.drop_last() =~= texts_of(self.lines@.take(i as int)));
                assert(ts_next.last() == self.lines@[i as int].text@);
                assert("\n"@ =~= seq!['\n']);
            }
            if i > 0 {
                out.append("\n");
            }
            out.append(self.lines[i].text.as_str());
            proof {
                if i == 0 {
                    assert(texts_of(self.lines@.take(0)) =~= Seq::<Seq<char>>::empty());
                    assert(out@ =~= join_texts(ts_next));
                } else {
                    assert(out@ =~= join_texts(ts_next));
                }
            }
            i = i + 1;
        }
        proof {
            assert(self.lines@.take(self.lines@.len() as int) =~= self.lines@);
        }
        out
    }
    /// The origin every line is painted at: the bound origin's x for all
    /// lines (a left-aligned container), and the accumulated height of
    /// the earlier lines below the bound origin's y. Prepaint must have
    /// occurred.
    #[verifier::loop_isolation(false)]
    pub fn line_origins(&self) -> (r: Vec<Point>)
        requires
            self.wf(),
            self.prepainted(),
        ensures
            r@.len() == self.lines_spec().len(),
            forall|i: int|
                0 <= i < r@.len() ==> (#[trigger] r@[i]).x == self.origin_spec().x && r@[i].y
                    == self.origin_spec().y + total_height(
                    self.lines_spec().take(i),
                    self.line_height_spec() as int,
                ),
    {
        let bounds = self.bounds.unwrap();
        let ghost lh = self.line_height as int;
        let mut out: Vec<Point> = Vec::new();
        let mut y: i64 = bounds.origin.y;
        let mut i: usize = 0;
        while i < self.lines.len()
            invariant
                i <= self.lines@.len(),
                out@.len() == i,
                y == bounds.origin.y + total_height(self.lines@.take(i as int), lh),
                forall|k: int|
                    0 <= k < i ==> (#[trigger] out@[k]).x == bounds.origin.x && out@[k].y
                        == bounds.origin.y + total_height(self.lines@.take(k), lh),
            decreases self.lines@.len() - i,
        {
            out.push(Point { x: bounds.origin.x, y });
            let line = &self.lines[i];
            let line_size = line.size(self.line_height);
            proof {
                lemma_mul_bounds(
                    line.rows_spec(),
                    lh,
                    MAX_LINE_ROWS as int,
                    MAX_LINE_HEIGHT as int,
                );
                assert(self.lines@.take(i as int + 1).drop_last() =~= self.lines@.take(i as int));
                assert(self.lines@.take(i as int + 1).last() == self.lines@[i as int]);
                lemma_total_height_prefix(self.lines@, lh, i as int + 1);
            }
            y = y + line_size.height;
            i = i + 1;
        }
        out
    }

    /// The character offset hit by a pixel position, `Ok` for an exact
    /// character hit and `Err` for a miss carrying the nearest boundary:
    /// 0 above the bounds, and the end of the last line below them.
    /// Prepaint must have occurred.
    #[verifier::loop_isolation(false)]
    #[verifier::rlimit(100)]
    pub fn index_for_position(&self, position: Point) -> (r: Result<usize, usize>)
        requires
            self.wf(),
            self.prepainted(),
            position.in_range(),
        ensures
            as_int_result(r) == (if position.y < self.origin_spec().y {
                Err::<int, int>(0)
            } else {
                hit_spec(
                    self.lines_spec(),
                    self.line_height_spec() as int,
                    position.x - self.origin_spec().x,
                    position.y - self.origin_spec().y,
                    0,
                )
            }),
    {
        let bounds = self.bounds.unwrap();
        if position.y < bounds.top() {
            return Err(0);
        }
        let ghost lh = self.line_height as int;
        let x = position.x - bounds.origin.x;
        let mut y = position.y - bounds.origin.y;
        let mut start_ix: usize = 0;
        let mut i: usize = 0;
        proof {
            assert(self.lines@.skip(0) =~= self.lines@);
        }
        while i < self.lines.len()
            invariant
                i <= self.lines@.len(),
                start_ix == line_start_ix(self.lines@, i as int),
                0 <= y,
                hit_spec(
                    self.lines@,
                    lh,
                    x as int,
                    position.y - self.origin_spec().y,
                    0,
                ) == hit_spec(
                    self.lines@.skip(i as int),
                    lh,
                    x as int,
                    y as int,
                    start_ix as int,
                ),
            decreases self.lines@.len() - i,
        {
            let line = &self.lines[i];
            let line_size = line.size(self.line_height);
            proof {
                lemma_mul_bounds(
                    line.rows_spec(),
                    lh,
                    MAX_LINE_ROWS as int,
                    MAX_LINE_HEIGHT as int,
                );
                assert(self.lines@.skip(i as int)[0] == self.lines@[i as int]);
                assert(self.lines@.skip(i as int).drop_first() =~= self.lines@.skip(i as int + 1));
                lemma_line_start_monotone(self.lines@, i as int + 1, self.lines@.len() as int);
            }
            if y > line_size.height {
                y = y - line_size.height;
                start_ix = start_ix + line.len() + 1;
                i = i + 1;
            } else {
                let within = Point { x, y };
                let hit = line.index_for_position(within, self.line_height);
                return match hit {
                    Ok(ix) => Ok(start_ix + ix),
                    Err(ix) => Err(start_ix + ix),
                };
            }
        }
        proof {
            assert(self.lines@.skip(self.lines@.len() as int) =~= Seq::<WrappedLine>::empty());
        }
        if start_ix > 0 {
            Err(start_ix - 1)
        } else {
            Err(0)
        }
    }

    /// The pixel position of a character offset, `None` when the offset
    /// falls past all text. Prepaint must have occurred.
    #[verifier::loop_isolation(false)]
    #[verifier::rlimit(100)]
    pub fn position_for_index(&self, index: usize) -> (r: Option<Point>)
        requires
            self.wf(),
            self.prepainted(),
        ensures
            r.is_some() <==> index_pos_spec(
                self.lines_spec(),
                self.line_height_spec() as int,
                index as int,
            ).is_some(),
            r matches Some(p) ==> index_pos_spec(
                self.lines_spec(),
                self.line_height_spec() as int,
                index as int,
            ) matches Some(q) && p.x == self.origin_spec().x + q.0 && p.y == self.origin_spec().y
                + q.1,
    {
        let bounds = self.bounds.unwrap();
        let ghost lh = self.line_height as int;
        let mut rel_ix = index;
        let mut y_off: i64 = 0;
        let mut i: usize = 0;
        proof {
            assert(self.lines@.skip(0) =~= self.lines@);
        }
        while i < self.lines.len()
            invariant
                i <= self.lines@.len(),
                0 <= y_off,
                y_off == total_height(self.lines@.take(i as int), lh),
                index_pos_spec(self.lines@, lh, index as int) == (match index_pos_spec(
                    self.lines@.skip(i as int),
                    lh,
                    rel_ix as int,
                ) {
                    None => None::<(int, int)>,
                    Some(p) => Some((p.0, p.1 + y_off as int)),
                }),
            decreases self.lines@.len() - i,
        {
            let line = &self.lines[i];
            proof {
                assert(self.lines@.skip(i as int)[0] == self.lines@[i as int]);
                assert(self.lines@.skip(i as int).drop_first() =~= self.lines@.skip(i as int + 1));
                lemma_mul_bounds(
                    line.rows_spec(),
                    lh,
                    MAX_LINE_ROWS as int,
                    MAX_LINE_HEIGHT as int,
                );
                assert(self.lines@.take(i as int + 1).drop_last() =~= self.lines@.take(i as int));
                assert(self.lines@.take(i as int + 1).last() == self.lines@[i as int]);
                lemma_total_height_prefix(self.lines@, lh, i as int + 1);
            }
            let line_len = line.len();
            if rel_ix <= line_len {
                let within = line.position_for_index(rel_ix, self.line_height);
                return match within {
                    Some(p) => Some(
                        Point { x: bounds.origin.x + p.x, y: bounds.origin.y + y_off + p.y },
                    ),
                    None => None,
                };
            }
            let line_size = line.size(self.line_height);
            rel_ix = rel_ix - (line_len + 1);
            y_off = y_off + line_size.height;
            i = i + 1;
        }
        proof {
            assert(self.lines@.skip(self.lines@.len() as int) =~= Seq::<WrappedLine>::empty());
        }
        None
    }
}

impl Default for TextLayout {
    /// A fresh, empty layout, as `new` builds it.
    fn default() -> (r: TextLayout)
        ensures
            r.wf(),
            !r.laid_out(),
            !r.prepainted(),
    {
        TextLayout::new()
    }
}

} // verus!
