//! Text with runs of different styles: a string, an optional explicit run
//! list, and the layout state that measures and places it. Highlight
//! overrides are spliced into a default-style base run set.

use crate::style::{HighlightStyle, IndexRange, TextRun, TextStyle};
use crate::text_layout::TextLayout;
use vstd::prelude::*;

verus! {

/// The total character count the runs cover.
pub open spec fn runs_total(rs: Seq<TextRun>) -> int
    decreases rs.len(),
{
    if rs.len() == 0 {
        0
    } else {
        runs_total(rs.drop_first()) + rs[0].len
    }
}

/// The highlight list is usable over text of length `len`: every range is
/// ordered and in bounds, and consecutive ranges do not overlap.
pub open spec fn highlights_ok(len: int, hs: Seq<(IndexRange, HighlightStyle)>) -> bool {
    &&& forall|i: int|
        0 <= i < hs.len() ==> (#[trigger] hs[i]).0.start <= hs[i].0.end && hs[i].0.end <= len
    &&& forall|i: int| 0 <= i < hs.len() - 1 ==> (#[trigger] hs[i]).0.end <= hs[i + 1].0.start
}

/// The run list that covers characters `ix..len` in the default style,
/// with each highlight's override spliced in over its range: a gap run in
/// the default style up to the range, a run in the highlighted style over
/// it, and finally a default run for whatever trails the last range.
pub open spec fn splice_runs(
    len: int,
    ix: int,
    default_style: TextStyle,
    hs: Seq<(IndexRange, HighlightStyle)>,
) -> Seq<TextRun>
    decreases hs.len(),
{
    if hs.len() == 0 {
        if ix < len {
            seq![default_style.to_run_spec((len - ix) as usize)]
        } else {
            Seq::empty()
        }
    } else {
        let range = hs[0].0;
        let gap = if ix < range.start {
            seq![default_style.to_run_spec((range.start - ix) as usize)]
        } else {
            Seq::<TextRun>::empty()
        };
        gap + seq![
            default_style.highlight_spec(hs[0].1).to_run_spec((range.end - range.start) as usize),
        ] + splice_runs(len, range.end as int, default_style, hs.drop_first())
    }
}

/// Spliced runs cover exactly the characters from `ix` to the text's end.
pub proof fn lemma_splice_covers(
    len: int,
    ix: int,
    default_style: TextStyle,
    hs: Seq<(IndexRange, HighlightStyle)>,
)
    requires
        0 <= ix <= len <= usize::MAX,
        highlights_ok(len, hs),
        hs.len() > 0 ==> ix <= hs[0].0.start,
    ensures
        runs_total(splice_runs(len, ix, default_style, hs)) == len - ix,
    decreases hs.len(),
{
    let out = splice_runs(len, ix, default_style, hs);
    if hs.len() == 0 {
        if ix < len {
            assert(out.drop_first() =~= Seq::<TextRun>::empty());
            assert(runs_total(out.drop_first()) == 0);
            assert(runs_total(out) == len - ix);
        } else {
            assert(out =~= Seq::<TextRun>::empty());
            assert(runs_total(out) == 0);
        }
    } else {
        let range = hs[0].0;
        let rest = hs.drop_first();
        assert(highlights_ok(len, rest)) by {
            assert forall|i: int|
                0 <= i < rest.len() implies (#[trigger] rest[i]).0.start <= rest[i].0.end
                && rest[i].0.end <= len by {
                assert(rest[i] == hs[i + 1]);
            }
            assert forall|i: int| 0 <= i < rest.len() - 1 implies (#[trigger] rest[i]).0.end
                <= rest[i + 1].0.start by {
                assert(rest[i] == hs[i + 1]);
                assert(rest[i + 1] == hs[i + 2]);
            }
        }
        if rest.len() > 0 {
            assert(rest[0] == hs[1]);
            assert(hs[0].0.end <= hs[1].0.start);
        }
        assert(hs[0].0.start <= hs[0].0.end && hs[0].0.end <= len);
        lemma_splice_covers(len, range.end as int, default_style, rest);
        let tail = splice_runs(len, range.end as int, default_style, rest);
        let hrun = seq![
            default_style.highlight_spec(hs[0].1).to_run_spec((range.end - range.start) as usize),
        ];
        assert(hrun.drop_first() =~= Seq::<TextRun>::empty());
        assert(runs_total(hrun.drop_first()) == 0);
        assert(runs_total(hrun) == range.end - range.start);
        if ix < range.start {
            let gap = seq![default_style.to_run_spec((range.start - ix) as usize)];
            assert(out =~= gap + hrun + tail);
            lemma_runs_total_concat(gap, hrun);
            lemma_runs_total_concat(gap + hrun, tail);
            assert(gap.drop_first() =~= Seq::<TextRun>::empty());
            assert(runs_total(gap.drop_first()) == 0);
            assert(runs_total(gap) == range.start - ix);
            assert(runs_total(out) == (range.start - ix) + (range.end - range.start) + (len
                - range.end));
        } else {
            assert(out =~= hrun + tail);
            lemma_runs_total_concat(hrun, tail);
            assert(runs_total(out) == (range.end - range.start) + (len - range.end));
            assert(ix == range.start);
        }
    }
}

proof fn lemma_runs_total_concat(a: Seq<TextRun>, b: Seq<TextRun>)
    ensures
        runs_total(a + b) == runs_total(a) + runs_total(b),
    decreases a.len(),
{
    if a.len() == 0 {
        assert(a + b =~= b);
    } else {
        assert((a + b).drop_first() =~= a.drop_first() + b);
        lemma_runs_total_concat(a.drop_first(), b);
    }
}

/// Text with styled runs and the layout that measures and places it.
///
/// Callers are responsible for setting the correct style for each run.
/// Text in a single uniform style needs no explicit run list.
pub struct StyledText {
    text: String,
    runs: Option<Vec<TextRun>>,
    layout: TextLayout,
}

impl StyledText {
    /// The text itself.
    pub closed spec fn text_spec(self) -> Seq<char> {
        self.text@
    }

    /// The explicit run list, if one was set.
    pub closed spec fn runs_spec(self) -> Option<Seq<TextRun>> {
        match self.runs {
            Some(rs) => Some(rs@),
            None => None,
        }
    }

    /// The layout state.
    pub closed spec fn layout_spec(self) -> TextLayout {
        self.layout
    }

    /// A new styled text element over the given string, with no explicit
    /// runs and a fresh, empty layout.
    pub fn new(text: String) -> (r: StyledText)
        ensures
            r.text_spec() == text@,
            r.runs_spec().is_none(),
            r.layout_spec().wf(),
            !r.layout_spec().laid_out(),
            !r.layout_spec().prepainted(),
    {
        StyledText { text, runs: None, layout: TextLayout::new() }
    }

    /// The layout for this element, for mapping offsets to pixels and
    /// back.
    pub fn layout(&self) -> (r: &TextLayout)
        ensures
            *r == self.layout_spec(),
    {
        &self.layout
    }

    /// The layout for this element, borrowed mutably so a measurement
    /// pass can be driven against it.
    pub fn layout_mut(&mut self) -> (r: &mut TextLayout)
        ensures
            *r == old(self).layout_spec(),
            final(self).layout_spec() == *final(r),
            final(self).text_spec() == old(self).text_spec(),
            final(self).runs_spec() == old(self).runs_spec(),
    {
        &mut self.layout
    }

    /// The text itself.
    pub fn text(&self) -> (r: &String)
        ensures
            r@ == self.text_spec(),
    {
        &self.text
    }

    /// Takes the explicit run list out, leaving none set.
    pub fn take_runs(&mut self) -> (r: Option<Vec<TextRun>>)
        ensures
            (match r {
                Some(rs) => old(self).runs_spec() == Some(rs@),
                None => old(self).runs_spec().is_none(),
            }),
            final(self).runs_spec().is_none(),
            final(self).text_spec() == old(self).text_spec(),
            final(self).layout_spec() == old(self).layout_spec(),
    {
        self.runs.take()
    }

    /// Sets the explicit run list for this text.
    pub fn with_runs(self, runs: Vec<TextRun>) -> (r: StyledText)
        ensures
            r.runs_spec() == Some(runs@),
            r.text_spec() == self.text_spec(),
            r.layout_spec() == self.layout_spec(),
    {
        StyledText { runs: Some(runs), ..self }
    }

    /// Splices the given highlight overrides, ordered and non-overlapping
    /// over the text, into a default-style base run set, and sets the
    /// result as this text's runs: the produced runs cover exactly the
    /// text length.
    #[verifier::loop_isolation(false)]
    pub fn with_highlights(
        self,
        default_style: &TextStyle,
        highlights: Vec<(IndexRange, HighlightStyle)>,
    ) -> (r: StyledText)
        requires
            highlights_ok(self.text_spec().len() as int, highlights@),
        ensures
            r.text_spec() == self.text_spec(),
            r.layout_spec() == self.layout_spec(),
            r.runs_spec() == Some(
                splice_runs(self.text_spec().len() as int, 0, *default_style, highlights@),
            ),
            runs_total(
                splice_runs(self.text_spec().len() as int, 0, *default_style, highlights@),
            ) == self.text_spec().len(),
    {
        let ghost hs = highlights@;
        let ghost len_int = self.text@.len() as int;
        let text_len = self.text.as_str().unicode_len();
        let mut runs: Vec<TextRun> = Vec::new();
        let mut ix: usize = 0;
        let mut k: usize = 0;
        proof {
            assert(hs.skip(0) =~= hs);
        }
        while k < highlights.len()
            invariant
                k <= hs.len(),
                ix <= text_len,
                k < hs.len() ==> ix <= hs[k as int].0.start,
                splice_runs(len_int, 0, *default_style, hs) == runs@ + splice_runs(
                    len_int,
                    ix as int,
                    *default_style,
                    hs.skip(k as int),
                ),
            decreases hs.len() - k,
        {
            let range = highlights[k].0;
            let highlight = highlights[k].1;
            let ghost runs_before = runs@;
            let ghost ix_before = ix as int;
            let ghost rest = hs.skip(k as int);
            proof {
                assert(rest[0] == hs[k as int]);
                assert(rest.drop_first() =~= hs.skip(k as int + 1));
            }
            if ix < range.start {
                runs.push(default_style.to_run(range.start - ix));
            }
            runs.push(default_style.highlight(highlight).to_run(range.end - range.start));
            ix = range.end;
            proof {
                let gap: Seq<TextRun> = if ix_before < range.start {
                    seq![default_style.to_run_spec((range.start - ix_before) as usize)]
                } else {
                    Seq::<TextRun>::empty()
                };
                let hrun = seq![
                    default_style.highlight_spec(highlight).to_run_spec(
                        (range.end - range.start) as usize,
                    ),
                ];
                assert(runs@ =~= runs_before + gap + hrun);
                assert(splice_runs(len_int, ix_before, *default_style, rest) == gap + hrun
                    + splice_runs(len_int, range.end as int, *default_style, rest.drop_first()));
                assert(runs@ + splice_runs(
                    len_int,
                    ix as int,
                    *default_style,
                    hs.skip(k as int + 1),
                ) =~= splice_runs(len_int, 0, *default_style, hs));
            }
            k = k + 1;
        }
        if ix < text_len {
            runs.push(default_style.to_run(text_len - ix));
        }
        proof {
            assert(hs.skip(hs.len() as int) =~= Seq::<(IndexRange, HighlightStyle)>::empty());
            assert(splice_runs(len_int, 0, *default_style, hs) =~= runs@);
            lemma_splice_covers(len_int, 0, *default_style, hs);
        }
        StyledText { text: self.text, runs: Some(runs), layout: self.layout }
    }
}

} // verus!
