//! Selections over a totally ordered position type, and the merger that
//! folds an ordered sequence of selections whose ranges touch or overlap
//! into the minimal canonical non-overlapping sequence.

use vstd::prelude::*;

verus! {

/// A totally ordered, copyable position type. Selections are ordered pairs
/// of positions; the merger works for any implementation of this order.
pub trait Position: Sized + Copy {
    /// The order itself, as a specification-level relation.
    spec fn leq_spec(self, other: Self) -> bool;

    /// The order is total.
    proof fn lemma_leq_total(a: Self, b: Self)
        ensures
            a.leq_spec(b) || b.leq_spec(a),
    ;

    /// The order is transitive.
    proof fn lemma_leq_trans(a: Self, b: Self, c: Self)
        requires
            a.leq_spec(b),
            b.leq_spec(c),
        ensures
            a.leq_spec(c),
    ;

    /// The order is antisymmetric.
    proof fn lemma_leq_antisymmetric(a: Self, b: Self)
        requires
            a.leq_spec(b),
            b.leq_spec(a),
        ensures
            a == b,
    ;

    /// Decides the order.
    fn leq(&self, other: &Self) -> (r: bool)
        ensures
            r == self.leq_spec(*other),
    ;
}

/// Strict order: `a` comes before `b` and differs from it.
pub open spec fn pos_lt<P: Position>(a: P, b: P) -> bool {
    !b.leq_spec(a)
}

impl Position for u32 {
    open spec fn leq_spec(self, other: Self) -> bool {
        self <= other
    }

    proof fn lemma_leq_total(a: Self, b: Self) {
    }

    proof fn lemma_leq_trans(a: Self, b: Self, c: Self) {
    }

    proof fn lemma_leq_antisymmetric(a: Self, b: Self) {
    }

    fn leq(&self, other: &Self) -> (r: bool) {
        *self <= *other
    }
}

/// An ordered pair of positions; empty (a cursor) when the two coincide.
/// Callers are expected to supply normalized selections (start before end),
/// but the merger itself assumes nothing beyond the order operators.
#[derive(Clone, Copy, PartialEq, Eq, Debug)]
pub struct Selection<P> {
    pub start: P,
    pub end: P,
}

impl<P: Position> Selection<P> {
    /// True when the selection is a cursor: start and end coincide.
    pub open spec fn is_empty_spec(self) -> bool {
        self.start == self.end
    }

    /// Decides whether the selection is a cursor.
    pub fn is_empty(&self) -> (r: bool)
        ensures
            r == self.is_empty_spec(),
    {
        let r = self.start.leq(&self.end) && self.end.leq(&self.start);
        proof {
            if r {
                P::lemma_leq_antisymmetric(self.start, self.end);
            } else {
                P::lemma_leq_total(self.start, self.end);
            }
        }
        r
    }
}

/// `next` touches or overlaps the accumulator: its start does not come
/// after the accumulator's end. Exactly abutting selections merge.
pub open spec fn touches<P: Position>(acc: Selection<P>, next: Selection<P>) -> bool {
    next.start.leq_spec(acc.end)
}

/// Fold one selection into the accumulator: keep the earlier start and the
/// later end.
pub open spec fn merge_pair<P: Position>(acc: Selection<P>, next: Selection<P>) -> Selection<P> {
    Selection {
        start: if pos_lt(next.start, acc.start) {
            next.start
        } else {
            acc.start
        },
        end: if pos_lt(acc.end, next.end) {
            next.end
        } else {
            acc.end
        },
    }
}

/// The merged sequence that begins with accumulator `acc` and continues
/// with the pending selections `rest`: pending selections are folded into
/// the accumulator while they touch it; the accumulator is emitted when the
/// next pending selection lies strictly beyond it.
pub open spec fn merge_rec<P: Position>(acc: Selection<P>, rest: Seq<Selection<P>>) -> Seq<
    Selection<P>,
>
    decreases rest.len(),
{
    if rest.len() == 0 {
        seq![acc]
    } else if touches(acc, rest[0]) {
        merge_rec(merge_pair(acc, rest[0]), rest.drop_first())
    } else {
        seq![acc] + merge_rec(rest[0], rest.drop_first())
    }
}

/// The canonical merged form of an input sequence of selections.
pub open spec fn merge_spec<P: Position>(input: Seq<Selection<P>>) -> Seq<Selection<P>> {
    if input.len() == 0 {
        Seq::empty()
    } else {
        merge_rec(input[0], input.drop_first())
    }
}

/// The input is ordered by ascending start.
pub open spec fn sorted_by_start<P: Position>(s: Seq<Selection<P>>) -> bool {
    forall|i: int, j: int| 0 <= i < j < s.len() ==> s[i].start.leq_spec(s[j].start)
}

/// Adjacent selections never touch or overlap: each start lies strictly
/// beyond the previous end.
pub open spec fn separated<P: Position>(s: Seq<Selection<P>>) -> bool {
    forall|i: int| 0 <= i < s.len() - 1 ==> !s[i + 1].start.leq_spec(s[i].end)
}

proof fn lemma_merge_rec_props<P: Position>(acc: Selection<P>, rest: Seq<Selection<P>>)
    requires
        sorted_by_start(rest),
        forall|i: int| 0 <= i < rest.len() ==> acc.start.leq_spec(#[trigger] rest[i].start),
    ensures
        merge_rec(acc, rest).len() >= 1,
        merge_rec(acc, rest)[0].start == acc.start,
        acc.end.leq_spec(merge_rec(acc, rest)[0].end),
        separated(merge_rec(acc, rest)),
        sorted_by_start(merge_rec(acc, rest)),
        forall|i: int|
            0 <= i < merge_rec(acc, rest).len() ==> acc.start.leq_spec(
                #[trigger] merge_rec(acc, rest)[i].start,
            ),
    decreases rest.len(),
{
    let out = merge_rec(acc, rest);
    if rest.len() == 0 {
        P::lemma_leq_total(acc.end, acc.end);
        P::lemma_leq_total(acc.start, acc.start);
        assert(out == seq![acc]);
        assert(out[0].start == acc.start);
    } else if touches(acc, rest[0]) {
        let acc2 = merge_pair(acc, rest[0]);
        let rest2 = rest.drop_first();
        assert(acc.start.leq_spec(rest[0].start));
        assert(acc2.start == acc.start);
        assert forall|i: int| 0 <= i < rest2.len() implies acc2.start.leq_spec(
            #[trigger] rest2[i].start,
        ) by {
            assert(rest2[i] == rest[i + 1]);
        }
        assert(sorted_by_start(rest2)) by {
            assert forall|i: int, j: int| 0 <= i < j < rest2.len() implies rest2[i].start.leq_spec(
                rest2[j].start,
            ) by {
                assert(rest2[i] == rest[i + 1]);
                assert(rest2[j] == rest[j + 1]);
            }
        }
        lemma_merge_rec_props(acc2, rest2);
        assert(out == merge_rec(acc2, rest2));
        if pos_lt(acc.end, rest[0].end) {
            P::lemma_leq_total(acc.end, rest[0].end);
            assert(acc.end.leq_spec(acc2.end));
        } else {
            P::lemma_leq_total(acc.end, acc.end);
            assert(acc.end.leq_spec(acc2.end));
        }
        P::lemma_leq_trans(acc.end, acc2.end, merge_rec(acc2, rest2)[0].end);
    } else {
        let rest2 = rest.drop_first();
        assert(sorted_by_start(rest2)) by {
            assert forall|i: int, j: int| 0 <= i < j < rest2.len() implies rest2[i].start.leq_spec(
                rest2[j].start,
            ) by {
                assert(rest2[i] == rest[i + 1]);
                assert(rest2[j] == rest[j + 1]);
            }
        }
        assert forall|i: int| 0 <= i < rest2.len() implies rest[0].start.leq_spec(
            #[trigger] rest2[i].start,
        ) by {
            assert(rest2[i] == rest[i + 1]);
        }
        lemma_merge_rec_props(rest[0], rest2);
        let tail = merge_rec(rest[0], rest2);
        assert(out == seq![acc] + tail);
        P::lemma_leq_total(acc.end, acc.end);
        P::lemma_leq_total(acc.start, acc.start);
        assert(out[0] == acc);
        assert forall|i: int| 0 <= i < out.len() implies acc.start.leq_spec(
            #[trigger] out[i].start,
        ) by {
            if i > 0 {
                assert(out[i] == tail[i - 1]);
                P::lemma_leq_trans(acc.start, rest[0].start, tail[i - 1].start);
            }
        }
        assert(separated(out)) by {
            assert forall|i: int| 0 <= i < out.len() - 1 implies !out[i + 1].start.leq_spec(
                out[i].end,
            ) by {
                if i == 0 {
                    assert(out[1] == tail[0]);
                    assert(tail[0].start == rest[0].start);
                    assert(!touches(acc, rest[0]));
                } else {
                    assert(out[i] == tail[i - 1]);
                    assert(out[i + 1] == tail[i]);
                }
            }
        }
        assert(sorted_by_start(out)) by {
            assert forall|i: int, j: int| 0 <= i < j < out.len() implies out[i].start.leq_spec(
                out[j].start,
            ) by {
                if i == 0 {
                    assert(out[j] == tail[j - 1]);
                    P::lemma_leq_trans(acc.start, rest[0].start, tail[j - 1].start);
                } else {
                    assert(out[i] == tail[i - 1]);
                    assert(out[j] == tail[j - 1]);
                }
            }
        }
    }
}

/// The merged form of an input ordered by ascending start is itself ordered
/// by ascending start, and adjacent merged selections never touch or
/// overlap: each one's start lies strictly beyond the previous one's end.
pub proof fn lemma_merge_sorted_separated<P: Position>(input: Seq<Selection<P>>)
    requires
        sorted_by_start(input),
    ensures
        sorted_by_start(merge_spec(input)),
        separated(merge_spec(input)),
{
    if input.len() > 0 {
        let rest = input.drop_first();
        assert(sorted_by_start(rest)) by {
            assert forall|i: int, j: int| 0 <= i < j < rest.len() implies rest[i].start.leq_spec(
                rest[j].start,
            ) by {
                assert(rest[i] == input[i + 1]);
                assert(rest[j] == input[j + 1]);
            }
        }
        assert forall|i: int| 0 <= i < rest.len() implies input[0].start.leq_spec(
            #[trigger] rest[i].start,
        ) by {
            assert(rest[i] == input[i + 1]);
        }
        lemma_merge_rec_props(input[0], rest);
    }
}

proof fn lemma_merge_rec_identity<P: Position>(acc: Selection<P>, rest: Seq<Selection<P>>)
    requires
        separated(rest),
        rest.len() > 0 ==> !rest[0].start.leq_spec(acc.end),
    ensures
        merge_rec(acc, rest) == seq![acc] + rest,
    decreases rest.len(),
{
    if rest.len() == 0 {
        assert(merge_rec(acc, rest) =~= seq![acc] + rest);
    } else {
        let rest2 = rest.drop_first();
        assert(separated(rest2)) by {
            assert forall|i: int| 0 <= i < rest2.len() - 1 implies !rest2[i + 1].start.leq_spec(
                rest2[i].end,
            ) by {
                assert(rest2[i] == rest[i + 1]);
                assert(rest2[i + 1] == rest[i + 2]);
            }
        }
        if rest2.len() > 0 {
            assert(rest2[0] == rest[1]);
            assert(!rest[1].start.leq_spec(rest[0].end));
        }
        lemma_merge_rec_identity(rest[0], rest2);
        assert(merge_rec(acc, rest) =~= seq![acc] + rest);
    }
}

/// Merging is idempotent on inputs ordered by ascending start: merging an
/// already merged sequence gives it back unchanged.
pub proof fn lemma_merge_idempotent<P: Position>(input: Seq<Selection<P>>)
    requires
        sorted_by_start(input),
    ensures
        merge_spec(merge_spec(input)) == merge_spec(input),
{
    lemma_merge_sorted_separated(input);
    let out = merge_spec(input);
    if out.len() > 0 {
        let rest = out.drop_first();
        assert(separated(rest)) by {
            assert forall|i: int| 0 <= i < rest.len() - 1 implies !rest[i + 1].start.leq_spec(
                rest[i].end,
            ) by {
                assert(rest[i] == out[i + 1]);
                assert(rest[i + 1] == out[i + 2]);
            }
        }
        if rest.len() > 0 {
            assert(rest[0] == out[1]);
            assert(!out[1].start.leq_spec(out[0].end));
        }
        lemma_merge_rec_identity(out[0], rest);
        assert(merge_spec(out) =~= out);
    }
}

/// A lazy, forward-only merger over an ordered sequence of selections. Each
/// call to `next` emits one merged selection; consumed input cannot be
/// revisited.
pub struct MergedOverlappingSelections<P> {
    selections: Vec<Selection<P>>,
    cursor: usize,
}

impl<P: Position> MergedOverlappingSelections<P> {
    /// The cursor never runs past the input.
    pub closed spec fn wf(self) -> bool {
        self.cursor <= self.selections.len()
    }

    /// The input not yet consumed.
    pub closed spec fn remaining(self) -> Seq<Selection<P>> {
        self.selections@.skip(self.cursor as int)
    }

    /// The whole input sequence, consumed or not.
    pub closed spec fn input(self) -> Seq<Selection<P>> {
        self.selections@
    }

    /// How many input selections have been consumed so far.
    pub closed spec fn consumed(self) -> int {
        self.cursor as int
    }

    /// Starts a merger over the given selections.
    pub fn new(selections: Vec<Selection<P>>) -> (r: MergedOverlappingSelections<P>)
        ensures
            r.wf(),
            r.remaining() == selections@,
    {
        let r = MergedOverlappingSelections { selections, cursor: 0 };
        proof {
            assert(r.remaining() =~= r.selections@);
        }
        r
    }

    /// Emits the next merged selection: the first pending selection, with
    /// every following selection that touches the growing accumulator
    /// folded in; `None` once the input is exhausted.
    pub fn next(&mut self) -> (r: Option<Selection<P>>)
        requires
            old(self).wf(),
        ensures
            final(self).wf(),
            final(self).input() == old(self).input(),
            old(self).consumed() <= final(self).consumed(),
            r.is_none() <==> old(self).remaining().len() == 0,
            r.is_none() ==> final(self).consumed() == old(self).consumed(),
            r matches Some(s) ==> old(self).consumed() < final(self).consumed() && merge_spec(
                old(self).remaining(),
            ) == seq![s] + merge_spec(final(self).remaining()),
    {
        let n = self.selections.len();
        if self.cursor == n {
            return None;
        }
        let ghost rem0 = self.remaining();
        let mut acc = self.selections[self.cursor];
        self.cursor = self.cursor + 1;
        proof {
            assert(rem0[0] == acc);
            assert(rem0.drop_first() =~= self.remaining());
        }
        while self.cursor < n
            invariant
                self.wf(),
                n == self.selections.len(),
                self.selections == old(self).selections,
                old(self).cursor < self.cursor,
                merge_rec(rem0[0], rem0.drop_first()) == merge_rec(acc, self.remaining()),
            ensures
                self.wf(),
                n == self.selections.len(),
                self.selections == old(self).selections,
                old(self).cursor < self.cursor,
                merge_rec(rem0[0], rem0.drop_first()) == merge_rec(acc, self.remaining()),
                self.cursor == n || !touches(acc, self.remaining()[0]),
            decreases n - self.cursor,
        {
            let next_selection = self.selections[self.cursor];
            proof {
                assert(next_selection == self.remaining()[0]);
            }
            if !next_selection.start.leq(&acc.end) {
                break;
            }
            let ghost rem_before = self.remaining();
            if !acc.start.leq(&next_selection.start) {
                acc.start = next_selection.start;
            }
            if !next_selection.end.leq(&acc.end) {
                acc.end = next_selection.end;
            }
            self.cursor = self.cursor + 1;
            proof {
                assert(rem_before.drop_first() =~= self.remaining());
            }
        }
        proof {
            if self.cursor == n {
                assert(self.remaining() =~= Seq::<Selection<P>>::empty());
                assert(merge_rec(acc, self.remaining()) =~= seq![acc]);
            } else {
                assert(merge_rec(acc, self.remaining()) == seq![acc] + merge_rec(
                    self.remaining()[0],
                    self.remaining().drop_first(),
                ));
            }
            assert(merge_spec(rem0) == seq![acc] + merge_spec(self.remaining()));
        }
        Some(acc)
    }
}

/// Merges a whole ordered sequence of selections into its canonical
/// non-overlapping form.
pub fn merge_selections<P: Position>(input: Vec<Selection<P>>) -> (r: Vec<Selection<P>>)
    ensures
        r@ == merge_spec(input@),
{
    let mut merger = MergedOverlappingSelections::new(input);
    let ghost input_view = merger.remaining();
    let mut out: Vec<Selection<P>> = Vec::new();
    loop
        invariant
            merger.wf(),
            out@ + merge_spec(merger.remaining()) == merge_spec(input_view),
        ensures
            merger.remaining().len() == 0,
            out@ + merge_spec(merger.remaining()) == merge_spec(input_view),
        decreases merger.selections@.len() - merger.cursor,
    {
        let item = merger.next();
        match item {
            None => {
                break;
            },
            Some(s) => {
                out.push(s);
            },
        }
        proof {
            assert(out@ + merge_spec(merger.remaining()) =~= merge_spec(input_view));
        }
    }
    proof {
        assert(merge_spec(merger.remaining()) =~= Seq::<Selection<P>>::empty());
        assert(out@ =~= merge_spec(input_view));
    }
    out
}

} // verus!
