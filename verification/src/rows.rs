//! Display rows: positions with a row/column decomposition, a snapshot of
//! display-line lengths that answers next-line-boundary lookups, the
//! resolver for the last display row covered by a selection, and the
//! grouper that clusters selections into contiguous display-row bands.

use crate::selection::{Position, Selection};
use vstd::prelude::*;

verus! {

/// The index of a display row.
pub type RowIndex = u32;

/// A logical document position: a display row and a column within it.
#[derive(Clone, Copy, PartialEq, Eq, Structural, Debug)]
pub struct TextPoint {
    pub row: u32,
    pub column: u32,
}

impl TextPoint {
    /// Builds a position from a row and a column.
    pub fn new(row: u32, column: u32) -> (r: TextPoint)
        ensures
            r == (TextPoint { row, column }),
    {
        TextPoint { row, column }
    }
}

impl Position for TextPoint {
    /// Row-major order: earlier row first, then earlier column.
    open spec fn leq_spec(self, other: Self) -> bool {
        self.row < other.row || (self.row == other.row && self.column <= other.column)
    }

    proof fn lemma_leq_total(a: Self, b: Self) {
    }

    proof fn lemma_leq_trans(a: Self, b: Self, c: Self) {
    }

    proof fn lemma_leq_antisymmetric(a: Self, b: Self) {
    }

    fn leq(&self, other: &Self) -> (r: bool) {
        self.row < other.row || (self.row == other.row && self.column <= other.column)
    }
}

/// A snapshot of the current display map: the length of every display row,
/// in order. It answers the next-line-boundary lookup that the row-end
/// resolver consumes.
pub struct DisplaySnapshot {
    line_lens: Vec<u32>,
}

impl DisplaySnapshot {
    /// A snapshot holds at least one row (an empty document still shows one
    /// empty row) and row indices fit in `u32`.
    pub closed spec fn wf(self) -> bool {
        1 <= self.line_lens@.len() <= u32::MAX
    }

    /// How many display rows the snapshot holds.
    pub closed spec fn rows(self) -> int {
        self.line_lens@.len() as int
    }

    /// The length of the given display row.
    pub closed spec fn line_len_spec(self, row: int) -> u32 {
        self.line_lens@[row]
    }

    /// The position's row lies within the document.
    pub open spec fn valid_point(self, p: TextPoint) -> bool {
        p.row < self.rows()
    }

    /// Builds a snapshot from the row lengths; `None` when the row list is
    /// empty or too long for row indices to fit in `u32`.
    pub fn new(line_lens: Vec<u32>) -> (r: Option<DisplaySnapshot>)
        ensures
            r matches Some(s) ==> s.wf() && s.rows() == line_lens@.len() && forall|i: int|
                0 <= i < line_lens@.len() ==> s.line_len_spec(i) == line_lens@[i],
            r.is_none() <==> (line_lens@.len() == 0 || line_lens@.len() > u32::MAX),
    {
        if line_lens.len() == 0 || line_lens.len() > u32::MAX as usize {
            None
        } else {
            Some(DisplaySnapshot { line_lens })
        }
    }

    /// The boundary position that ends the display line containing `p`: the
    /// end of `p`'s row, with the row clamped into the document.
    pub open spec fn next_line_boundary_spec(self, p: TextPoint) -> TextPoint {
        let row = if p.row < self.rows() {
            p.row as int
        } else {
            self.rows() - 1
        };
        TextPoint { row: row as u32, column: self.line_len_spec(row) }
    }

    /// Looks up the next line boundary after `p`.
    pub fn next_line_boundary(&self, p: TextPoint) -> (r: TextPoint)
        requires
            self.wf(),
        ensures
            r == self.next_line_boundary_spec(p),
            r.row < self.rows(),
    {
        let row: usize = if (p.row as usize) < self.line_lens.len() {
            p.row as usize
        } else {
            self.line_lens.len() - 1
        };
        TextPoint { row: row as u32, column: self.line_lens[row] }
    }
}

/// The display row exclusive-upper-bound covered by `selection`, as an
/// unbounded integer: one past the next line boundary's row when the
/// selection is empty or ends mid-line, the end row itself otherwise.
pub open spec fn end_row_for_spec(
    selection: Selection<TextPoint>,
    display_map: DisplaySnapshot,
) -> int {
    if selection.end.column > 0 || selection.is_empty_spec() {
        display_map.next_line_boundary_spec(selection.end).row + 1
    } else {
        selection.end.row as int
    }
}

/// Resolves the display row exclusive-upper-bound covered by `selection`.
///
/// A selection that is empty or ends mid-line covers its end row, so the
/// bound is one past the row of the next line boundary; a non-empty
/// selection ending exactly at column 0 does not cover that trailing row,
/// so the bound is the end row itself. The bound never falls below the
/// selection's end row.
pub fn end_row_for(selection: &Selection<TextPoint>, display_map: &DisplaySnapshot) -> (r:
    RowIndex)
    requires
        display_map.wf(),
        display_map.valid_point(selection.end),
    ensures
        r == end_row_for_spec(*selection, *display_map),
        r >= selection.end.row,
        selection.end.column == 0 && !selection.is_empty_spec() ==> r == selection.end.row,
        selection.end.column > 0 || selection.is_empty_spec() ==> r > selection.end.row,
{
    if selection.end.column > 0 || selection.is_empty() {
        display_map.next_line_boundary(selection.end).row + 1
    } else {
        selection.end.row
    }
}

/// A contiguous band of display rows, as a half-open row range.
#[derive(Clone, Copy, PartialEq, Eq, Structural, Debug)]
pub struct RowRange {
    pub start: RowIndex,
    pub end: RowIndex,
}

/// The clusters that begin with an open cluster (`start_row`, `end_row`,
/// `cluster`) and continue with the pending selections `rest`: a pending
/// selection whose start row does not exceed the open cluster's resolved
/// end row joins the cluster and re-resolves its end row; otherwise the
/// cluster is emitted and a new one is seeded from that selection.
pub open spec fn group_rec(
    display_map: DisplaySnapshot,
    start_row: RowIndex,
    end_row: RowIndex,
    cluster: Seq<Selection<TextPoint>>,
    rest: Seq<Selection<TextPoint>>,
) -> Seq<(RowRange, Seq<Selection<TextPoint>>)>
    decreases rest.len(),
{
    if rest.len() == 0 {
        seq![(RowRange { start: start_row, end: end_row }, cluster)]
    } else if rest[0].start.row <= end_row {
        group_rec(
            display_map,
            start_row,
            end_row_for_spec(rest[0], display_map) as u32,
            cluster.push(rest[0]),
            rest.drop_first(),
        )
    } else {
        seq![(RowRange { start: start_row, end: end_row }, cluster)] + group_rec(
            display_map,
            rest[0].start.row,
            end_row_for_spec(rest[0], display_map) as u32,
            seq![rest[0]],
            rest.drop_first(),
        )
    }
}

/// The clustering of a whole sequence of selections into contiguous
/// display-row bands.
pub open spec fn group_spec(display_map: DisplaySnapshot, input: Seq<Selection<TextPoint>>) -> Seq<
    (RowRange, Seq<Selection<TextPoint>>),
> {
    if input.len() == 0 {
        Seq::empty()
    } else {
        group_rec(
            display_map,
            input[0].start.row,
            end_row_for_spec(input[0], display_map) as u32,
            seq![input[0]],
            input.drop_first(),
        )
    }
}

/// The selections of all clusters, in emission order.
pub open spec fn flatten_clusters(groups: Seq<(RowRange, Seq<Selection<TextPoint>>)>) -> Seq<
    Selection<TextPoint>,
>
    decreases groups.len(),
{
    if groups.len() == 0 {
        Seq::empty()
    } else {
        groups[0].1 + flatten_clusters(groups.drop_first())
    }
}

proof fn lemma_flatten_push_front(
    head: (RowRange, Seq<Selection<TextPoint>>),
    tail: Seq<(RowRange, Seq<Selection<TextPoint>>)>,
)
    ensures
        flatten_clusters(seq![head] + tail) == head.1 + flatten_clusters(tail),
{
    let whole = seq![head] + tail;
    assert(whole[0] == head);
    assert(whole.drop_first() =~= tail);
}

proof fn lemma_group_rec_flatten(
    display_map: DisplaySnapshot,
    start_row: RowIndex,
    end_row: RowIndex,
    cluster: Seq<Selection<TextPoint>>,
    rest: Seq<Selection<TextPoint>>,
)
    ensures
        flatten_clusters(group_rec(display_map, start_row, end_row, cluster, rest)) == cluster
            + rest,
    decreases rest.len(),
{
    let out = group_rec(display_map, start_row, end_row, cluster, rest);
    if rest.len() == 0 {
        assert(out.drop_first() =~= Seq::<(RowRange, Seq<Selection<TextPoint>>)>::empty());
        assert(flatten_clusters(Seq::<(RowRange, Seq<Selection<TextPoint>>)>::empty())
            =~= Seq::<Selection<TextPoint>>::empty());
        assert(flatten_clusters(out) =~= cluster + rest);
    } else if rest[0].start.row <= end_row {
        lemma_group_rec_flatten(
            display_map,
            start_row,
            end_row_for_spec(rest[0], display_map) as u32,
            cluster.push(rest[0]),
            rest.drop_first(),
        );
        assert(cluster.push(rest[0]) + rest.drop_first() =~= cluster + rest);
    } else {
        let head = (RowRange { start: start_row, end: end_row }, cluster);
        let tail = group_rec(
            display_map,
            rest[0].start.row,
            end_row_for_spec(rest[0], display_map) as u32,
            seq![rest[0]],
            rest.drop_first(),
        );
        lemma_group_rec_flatten(
            display_map,
            rest[0].start.row,
            end_row_for_spec(rest[0], display_map) as u32,
            seq![rest[0]],
            rest.drop_first(),
        );
        lemma_flatten_push_front(head, tail);
        assert(cluster + (seq![rest[0]] + rest.drop_first()) =~= cluster + rest);
    }
}

/// Clustering loses nothing and invents nothing: the selections of the
/// emitted clusters, in order, are exactly the input sequence.
pub proof fn lemma_group_flatten(display_map: DisplaySnapshot, input: Seq<Selection<TextPoint>>)
    ensures
        flatten_clusters(group_spec(display_map, input)) == input,
{
    if input.len() == 0 {
    } else {
        lemma_group_rec_flatten(
            display_map,
            input[0].start.row,
            end_row_for_spec(input[0], display_map) as u32,
            seq![input[0]],
            input.drop_first(),
        );
        assert(seq![input[0]] + input.drop_first() =~= input);
    }
}

/// Every emitted row range is well formed, every cluster is non-empty, and
/// between two clusters the earlier one's resolved end row lies strictly
/// below the later one's start row: at least one unclustered row boundary
/// separates them.
pub open spec fn clusters_apart(groups: Seq<(RowRange, Seq<Selection<TextPoint>>)>) -> bool {
    (forall|i: int| 0 <= i < groups.len() ==> (#[trigger] groups[i].0).start <= groups[i].0.end)
        && (forall|i: int| 0 <= i < groups.len() ==> (#[trigger] groups[i].1).len() >= 1) && (
    forall|i: int| 0 <= i < groups.len() - 1 ==> groups[i].0.end < (#[trigger] groups[
        i + 1
    ].0).start)
}

/// All selections lie within the document and are normalized.
pub open spec fn all_valid(display_map: DisplaySnapshot, s: Seq<Selection<TextPoint>>) -> bool {
    forall|i: int|
        0 <= i < s.len() ==> display_map.valid_point((#[trigger] s[i]).end) && s[i].start.leq_spec(
            s[i].end,
        )
}

proof fn lemma_group_rec_apart(
    display_map: DisplaySnapshot,
    start_row: RowIndex,
    end_row: RowIndex,
    cluster: Seq<Selection<TextPoint>>,
    rest: Seq<Selection<TextPoint>>,
)
    requires
        display_map.wf(),
        all_valid(display_map, rest),
        crate::selection::sorted_by_start(rest),
        forall|i: int| 0 <= i < rest.len() ==> start_row <= (#[trigger] rest[i]).start.row,
        start_row <= end_row,
        cluster.len() >= 1,
    ensures
        clusters_apart(group_rec(display_map, start_row, end_row, cluster, rest)),
        group_rec(display_map, start_row, end_row, cluster, rest)[0].0.start == start_row,
        group_rec(display_map, start_row, end_row, cluster, rest).len() >= 1,
    decreases rest.len(),
{
    let out = group_rec(display_map, start_row, end_row, cluster, rest);
    if rest.len() == 0 {
        assert(out[0].0.start == start_row);
    } else {
        let first = rest[0];
        let rest2 = rest.drop_first();
        let end2 = end_row_for_spec(first, display_map) as u32;
        assert(display_map.valid_point(first.end));
        assert(end_row_for_spec(first, display_map) >= first.end.row);
        assert(first.start.row <= first.end.row);
        assert(end2 >= first.start.row);
        assert(all_valid(display_map, rest2)) by {
            assert forall|i: int|
                0 <= i < rest2.len() implies display_map.valid_point(
                (#[trigger] rest2[i]).end,
            ) && rest2[i].start.leq_spec(rest2[i].end) by {
                assert(rest2[i] == rest[i + 1]);
            }
        }
        assert(crate::selection::sorted_by_start(rest2)) by {
            assert forall|i: int, j: int|
                0 <= i < j < rest2.len() implies rest2[i].start.leq_spec(rest2[j].start) by {
                assert(rest2[i] == rest[i + 1]);
                assert(rest2[j] == rest[j + 1]);
            }
        }
        if first.start.row <= end_row {
            assert forall|i: int| 0 <= i < rest2.len() implies start_row <= (#[trigger] rest2[
                i
            ]).start.row by {
                assert(rest2[i] == rest[i + 1]);
            }
            assert(start_row <= end2);
            lemma_group_rec_apart(
                display_map,
                start_row,
                end2,
                cluster.push(first),
                rest2,
            );
        } else {
            assert forall|i: int| 0 <= i < rest2.len() implies first.start.row <= (
            #[trigger] rest2[i]).start.row by {
                assert(rest2[i] == rest[i + 1]);
                assert(rest[0].start.leq_spec(rest[i + 1].start));
            }
            lemma_group_rec_apart(display_map, first.start.row, end2, seq![first], rest2);
            let head = (RowRange { start: start_row, end: end_row }, cluster);
            let tail = group_rec(display_map, first.start.row, end2, seq![first], rest2);
            assert(out == seq![head] + tail);
            assert(out[0] == head);
            assert forall|i: int| 0 <= i < out.len() - 1 implies out[i].0.end < (#[trigger] out[
                i + 1
            ].0).start by {
                if i == 0 {
                    assert(out[1] == tail[0]);
                    assert(tail[0].0.start == first.start.row);
                    assert(out[0].0.end == end_row);
                } else {
                    let j = i - 1;
                    assert(out[i] == tail[j]);
                    assert(out[i + 1] == tail[j + 1]);
                    assert(tail[j].0.end < tail[j + 1].0.start);
                }
            }
            assert forall|i: int| 0 <= i < out.len() implies (#[trigger] out[i].0).start <= out[
                i
            ].0.end by {
                if i > 0 {
                    assert(out[i] == tail[i - 1]);
                }
            }
            assert forall|i: int| 0 <= i < out.len() implies (#[trigger] out[i].1).len() >= 1 by {
                if i > 0 {
                    assert(out[i] == tail[i - 1]);
                }
            }
        }
    }
}

/// A lazy, forward-only grouper that clusters an ordered sequence of
/// selections into contiguous display-row bands. Each call to `next` emits
/// one `(row range, cluster)` pair; consumed input cannot be revisited.
pub struct ContiguousRowRanges<'a> {
    selections: Vec<Selection<TextPoint>>,
    cursor: usize,
    display_map: &'a DisplaySnapshot,
}

impl<'a> ContiguousRowRanges<'a> {
    /// The cursor never runs past the input, the snapshot is well formed,
    /// and every selection lies within the document.
    pub closed spec fn wf(self) -> bool {
        self.cursor <= self.selections.len() && self.display_map.wf() && all_valid(
            *self.display_map,
            self.selections@,
        )
    }

    /// The input not yet consumed.
    pub closed spec fn remaining(self) -> Seq<Selection<TextPoint>> {
        self.selections@.skip(self.cursor as int)
    }

    /// The whole input sequence, consumed or not.
    pub closed spec fn input(self) -> Seq<Selection<TextPoint>> {
        self.selections@
    }

    /// How many input selections have been consumed so far.
    pub closed spec fn consumed(self) -> int {
        self.cursor as int
    }

    /// The snapshot the grouper resolves row ends against.
    pub closed spec fn snapshot(self) -> DisplaySnapshot {
        *self.display_map
    }

    /// Starts a grouper over the given selections, resolving row ends
    /// against `display_map`.
    pub fn new(selections: Vec<Selection<TextPoint>>, display_map: &'a DisplaySnapshot) -> (r:
        ContiguousRowRanges<'a>)
        requires
            display_map.wf(),
            all_valid(*display_map, selections@),
        ensures
            r.wf(),
            r.remaining() == selections@,
            r.snapshot() == *display_map,
    {
        let r = ContiguousRowRanges { selections, cursor: 0, display_map };
        proof {
            assert(r.remaining() =~= r.selections@);
        }
        r
    }

    /// Emits the next cluster: the first pending selection seeds a row
    /// band, and every following selection whose start row does not exceed
    /// the band's resolved end row joins it, re-resolving the end row.
    /// `None` once the input is exhausted.
    pub fn next(&mut self) -> (r: Option<(RowRange, Vec<Selection<TextPoint>>)>)
        requires
            old(self).wf(),
        ensures
            final(self).wf(),
            final(self).input() == old(self).input(),
            final(self).snapshot() == old(self).snapshot(),
            old(self).consumed() <= final(self).consumed(),
            r.is_none() <==> old(self).remaining().len() == 0,
            r.is_none() ==> final(self).consumed() == old(self).consumed(),
            r matches Some(p) ==> old(self).consumed() < final(self).consumed() && group_spec(
                old(self).snapshot(),
                old(self).remaining(),
            ) == seq![(p.0, p.1@)] + group_spec(old(self).snapshot(), final(self).remaining()),
    {
        let n = self.selections.len();
        if self.cursor == n {
            return None;
        }
        let ghost rem0 = self.remaining();
        let ghost snap = *self.display_map;
        let first = self.selections[self.cursor];
        self.cursor = self.cursor + 1;
        proof {
            assert(rem0[0] == first);
            assert(rem0.drop_first() =~= self.remaining());
        }
        let mut cluster: Vec<Selection<TextPoint>> = Vec::new();
        cluster.push(first);
        let start_row = first.start.row;
        let mut end_row = end_row_for(&first, self.display_map);
        while self.cursor < n
            invariant
                self.wf(),
                n == self.selections.len(),
                self.selections == old(self).selections,
                self.display_map == old(self).display_map,
                snap == *self.display_map,
                old(self).cursor < self.cursor,
                group_rec(snap, start_row, end_row, cluster@, self.remaining()) == group_spec(
                    snap,
                    rem0,
                ),
            ensures
                self.wf(),
                n == self.selections.len(),
                self.selections == old(self).selections,
                self.display_map == old(self).display_map,
                old(self).cursor < self.cursor,
                group_rec(snap, start_row, end_row, cluster@, self.remaining()) == group_spec(
                    snap,
                    rem0,
                ),
                self.cursor == n || self.remaining()[0].start.row > end_row,
            decreases n - self.cursor,
        {
            let next_selection = self.selections[self.cursor];
            proof {
                assert(next_selection == self.remaining()[0]);
            }
            if next_selection.start.row > end_row {
                break;
            }
            let ghost rem_before = self.remaining();
            let ghost cluster_before = cluster@;
            end_row = end_row_for(&next_selection, self.display_map);
            cluster.push(next_selection);
            self.cursor = self.cursor + 1;
            proof {
                assert(rem_before.drop_first() =~= self.remaining());
                assert(cluster@ == cluster_before.push(next_selection));
            }
        }
        let range = RowRange { start: start_row, end: end_row };
        proof {
            if self.cursor == n {
                assert(self.remaining() =~= Seq::<Selection<TextPoint>>::empty());
                assert(group_rec(snap, start_row, end_row, cluster@, self.remaining()) =~= seq![
                    (range, cluster@),
                ]);
                assert(group_spec(snap, self.remaining()) =~= Seq::<
                    (RowRange, Seq<Selection<TextPoint>>),
                >::empty());
                assert(seq![(range, cluster@)] =~= seq![(range, cluster@)] + group_spec(
                    snap,
                    self.remaining(),
                ));
            } else {
                assert(group_rec(snap, start_row, end_row, cluster@, self.remaining()) == seq![
                    (range, cluster@),
                ] + group_spec(snap, self.remaining()));
            }
        }
        Some((range, cluster))
    }
}

/// On a document-valid input ordered by ascending start row, the emitted
/// clusters are sorted, their ranges are well formed, every cluster is
/// non-empty, and consecutive clusters never share or abut a row band:
/// each later cluster starts strictly beyond the earlier one's end row.
pub proof fn lemma_group_apart(display_map: DisplaySnapshot, input: Seq<Selection<TextPoint>>)
    requires
        display_map.wf(),
        all_valid(display_map, input),
        crate::selection::sorted_by_start(input),
    ensures
        clusters_apart(group_spec(display_map, input)),
{
    if input.len() > 0 {
        let first = input[0];
        let rest = input.drop_first();
        let end0 = end_row_for_spec(first, display_map) as u32;
        assert(display_map.valid_point(first.end));
        assert(first.start.leq_spec(first.end));
        assert(first.start.row <= end0);
        assert(all_valid(display_map, rest)) by {
            assert forall|i: int|
                0 <= i < rest.len() implies display_map.valid_point(
                (#[trigger] rest[i]).end,
            ) && rest[i].start.leq_spec(rest[i].end) by {
                assert(rest[i] == input[i + 1]);
            }
        }
        assert(crate::selection::sorted_by_start(rest)) by {
            assert forall|i: int, j: int|
                0 <= i < j < rest.len() implies rest[i].start.leq_spec(rest[j].start) by {
                assert(rest[i] == input[i + 1]);
                assert(rest[j] == input[j + 1]);
            }
        }
        assert forall|i: int| 0 <= i < rest.len() implies first.start.row <= (#[trigger] rest[
            i
        ]).start.row by {
            assert(rest[i] == input[i + 1]);
            assert(first.start.leq_spec(input[i + 1].start));
        }
        lemma_group_rec_apart(display_map, first.start.row, end0, seq![first], rest);
    }
}

} // verus!
