//! A userspace error reported by a kernel, rendered as a styled header
//! line (the error name and separator in bold error color, the error
//! value in bold) above an indented traceback pane.

use crate::style::{HighlightStyle, IndexRange, TextRun, TextStyle, FONT_WEIGHT_BOLD};
use crate::styled_text::StyledText;
use vstd::prelude::*;

verus! {

/// A userspace error from a kernel: its name, its value, and the
/// traceback text shown beneath them.
pub struct ErrorView {
    pub ename: String,
    pub evalue: String,
    pub traceback: String,
}

/// The highlight the error name and separator carry: the error color,
/// bold.
pub open spec fn name_highlight(error_color: u32) -> HighlightStyle {
    HighlightStyle {
        color: Some(error_color),
        font_weight: Some(FONT_WEIGHT_BOLD),
        underline: None,
    }
}

/// The highlight the error value carries: bold, in the ambient color.
pub open spec fn value_highlight() -> HighlightStyle {
    HighlightStyle { color: None, font_weight: Some(FONT_WEIGHT_BOLD), underline: None }
}

impl ErrorView {
    /// Renders the error's header line as styled text over the ambient
    /// style: the text is the error name, a separating colon and space,
    /// then the error value; one run covers the name and separator in
    /// bold error color, a second covers the value in bold.
    pub fn render(&self, style: &TextStyle, error_color: u32) -> (r: Option<StyledText>)
        requires
            self.ename@.len() + 2 + self.evalue@.len() <= usize::MAX,
        ensures
            r matches Some(st) && st.text_spec() == self.ename@ + seq![':', ' '] + self.evalue@
                && (st.runs_spec() matches Some(rs) && rs.len() == 2 && rs[0]
                == style.highlight_spec(name_highlight(error_color)).to_run_spec(
                (self.ename@.len() + 2) as usize,
            ) && rs[1] == style.highlight_spec(value_highlight()).to_run_spec(
                self.evalue@.len() as usize,
            )),
    {
        let name_len = self.ename.as_str().unicode_len();
        let value_len = self.evalue.as_str().unicode_len();
        let mut text = self.ename.clone();
        text.append(": ");
        text.append(self.evalue.as_str());
        proof {
            reveal_strlit(": ");
            assert(": "@ =~= seq![':', ' ']);
            assert(text@ =~= self.ename@ + seq![':', ' '] + self.evalue@);
        }
        let header_len = name_len + 2;
        let total_len = header_len + value_len;
        let name_style = HighlightStyle {
            color: Some(error_color),
            font_weight: Some(FONT_WEIGHT_BOLD),
            underline: None,
        };
        let value_style = HighlightStyle {
            color: None,
            font_weight: Some(FONT_WEIGHT_BOLD),
            underline: None,
        };
        let highlights: Vec<(IndexRange, HighlightStyle)> = vec![
            (IndexRange::new(0, header_len), name_style),
            (IndexRange::new(header_len, total_len), value_style),
        ];
        let ghost hs = highlights@;
        proof {
            assert(hs[0] == (IndexRange { start: 0, end: header_len }, name_highlight(error_color)));
            assert(hs[1] == (IndexRange { start: header_len, end: total_len }, value_highlight()));
        }
        let styled = StyledText::new(text).with_highlights(style, highlights);
        proof {
            let len_int = styled.text_spec().len() as int;
            assert(len_int == total_len);
            let rs = crate::styled_text::splice_runs(len_int, 0, *style, hs);
            assert(hs.drop_first() =~= seq![hs[1]]);
            assert(seq![hs[1]].drop_first() =~= Seq::<(IndexRange, HighlightStyle)>::empty());
            let empty_hs = Seq::<(IndexRange, HighlightStyle)>::empty();
            let tail2 = crate::styled_text::splice_runs(len_int, total_len as int, *style, empty_hs);
            assert(tail2 =~= Seq::<TextRun>::empty());
            let tail1 = crate::styled_text::splice_runs(
                len_int,
                header_len as int,
                *style,
                hs.drop_first(),
            );
            assert(tail1 =~= seq![
                style.highlight_spec(value_highlight()).to_run_spec(value_len),
            ]);
            assert(rs =~= seq![
                style.highlight_spec(name_highlight(error_color)).to_run_spec(header_len),
            ] + tail1);
            assert(rs =~= seq![
                style.highlight_spec(name_highlight(error_color)).to_run_spec(header_len),
                style.highlight_spec(value_highlight()).to_run_spec(value_len),
            ]);
        }
        Some(styled)
    }

    /// The padding of the traceback pane beneath the header: half the
    /// ambient line height on every side.
    pub fn render_padding(line_height: i64) -> (r: i64)
        requires
            0 <= line_height,
        ensures
            r == line_height / 2,
    {
        line_height / 2
    }
}

} // verus!
