//! Mouse interaction over styled text: the clickable ranges an element
//! carries, the decision of which ranges a click fires, and the per-element
//! interaction state driven by mouse events. Event delivery and listener
//! callbacks belong to the embedding application; the decisions live here.

use crate::style::IndexRange;
use crate::styled_text::StyledText;
use vstd::prelude::*;

verus! {

/// A click that went down at `down` and up at `up` fires range `i`
/// exactly when both offsets lie within the range.
pub open spec fn click_fires(ranges: Seq<IndexRange>, i: int, down: int, up: int) -> bool {
    ranges[i].contains_spec(down) && ranges[i].contains_spec(up)
}

/// A text element that can be interacted with: styled text plus the
/// ranges a click listener watches.
pub struct InteractiveText {
    element_id: u64,
    text: StyledText,
    clickable_ranges: Vec<IndexRange>,
}

impl InteractiveText {
    /// The element's identity.
    pub closed spec fn element_id_spec(self) -> u64 {
        self.element_id
    }

    /// The styled text the element wraps.
    pub closed spec fn text_spec(self) -> StyledText {
        self.text
    }

    /// The ranges a click listener watches.
    pub closed spec fn clickable_ranges_spec(self) -> Seq<IndexRange> {
        self.clickable_ranges@
    }

    /// A new interactive element over the given styled text, with no
    /// clickable ranges yet.
    pub fn new(id: u64, text: StyledText) -> (r: InteractiveText)
        ensures
            r.element_id_spec() == id,
            r.text_spec() == text,
            r.clickable_ranges_spec() == Seq::<IndexRange>::empty(),
    {
        let r = InteractiveText { element_id: id, text, clickable_ranges: Vec::new() };
        proof {
            assert(r.clickable_ranges@ =~= Seq::<IndexRange>::empty());
        }
        r
    }

    /// Sets the ranges whose clicks the embedding application listens
    /// for; `click_targets` then decides which of them a click fires.
    pub fn on_click(self, ranges: Vec<IndexRange>) -> (r: InteractiveText)
        ensures
            r.element_id_spec() == self.element_id_spec(),
            r.text_spec() == self.text_spec(),
            r.clickable_ranges_spec() == ranges@,
    {
        InteractiveText { clickable_ranges: ranges, ..self }
    }

    /// The styled text the element wraps.
    pub fn text(&self) -> (r: &StyledText)
        ensures
            *r == self.text_spec(),
    {
        &self.text
    }

    /// Decides which clickable ranges a click fires: the indices, in
    /// ascending order, of every range that contains both the mouse-down
    /// and the mouse-up offset.
    pub fn click_targets(&self, mouse_down_index: usize, mouse_up_index: usize) -> (r: Vec<usize>)
        ensures
            forall|j: int|
                0 <= j < r@.len() ==> #[trigger] r@[j] < self.clickable_ranges_spec().len()
                    && click_fires(
                    self.clickable_ranges_spec(),
                    r@[j] as int,
                    mouse_down_index as int,
                    mouse_up_index as int,
                ),
            forall|i: int|
                0 <= i < self.clickable_ranges_spec().len() && click_fires(
                    self.clickable_ranges_spec(),
                    i,
                    mouse_down_index as int,
                    mouse_up_index as int,
                ) ==> r@.contains(i as usize),
            forall|j: int, k: int| 0 <= j < k < r@.len() ==> r@[j] < r@[k],
    {
        let mut out: Vec<usize> = Vec::new();
        let mut i: usize = 0;
        while i < self.clickable_ranges.len()
            invariant
                i <= self.clickable_ranges@.len(),
                forall|j: int|
                    0 <= j < out@.len() ==> #[trigger] out@[j] < i && click_fires(
                        self.clickable_ranges@,
                        out@[j] as int,
                        mouse_down_index as int,
                        mouse_up_index as int,
                    ),
                forall|k: int|
                    0 <= k < i && click_fires(
                        self.clickable_ranges@,
                        k,
                        mouse_down_index as int,
                        mouse_up_index as int,
                    ) ==> out@.contains(k as usize),
                forall|j: int, k: int| 0 <= j < k < out@.len() ==> out@[j] < out@[k],
            decreases self.clickable_ranges@.len() - i,
        {
            let range = self.clickable_ranges[i];
            let ghost out_before = out@;
            if range.contains(mouse_down_index) && range.contains(mouse_up_index) {
                out.push(i);
            }
            proof {
                assert forall|k: int|
                    0 <= k < i + 1 && click_fires(
                        self.clickable_ranges@,
                        k,
                        mouse_down_index as int,
                        mouse_up_index as int,
                    ) implies out@.contains(k as usize) by {
                    if k < i {
                        assert(out_before.contains(k as usize));
                        let n = choose|n: int|
                            0 <= n < out_before.len() && out_before[n] == k as usize;
                        assert(out@[n] == k as usize);
                    } else {
                        assert(out@[out@.len() - 1] == i as usize);
                    }
                }
            }
            i = i + 1;
        }
        out
    }
}

/// The interaction state of one interactive text element: the pending
/// mouse press, and the character offset currently hovered.
pub struct InteractiveTextState {
    pub mouse_down_index: Option<usize>,
    pub hovered_index: Option<usize>,
}

impl InteractiveTextState {
    /// A fresh state: no press pending, nothing hovered.
    pub fn new() -> (r: InteractiveTextState)
        ensures
            r.mouse_down_index.is_none(),
            r.hovered_index.is_none(),
    {
        InteractiveTextState { mouse_down_index: None, hovered_index: None }
    }

    /// Records a mouse press: a hit offset becomes the pending press; a
    /// miss leaves the state as it was.
    pub fn on_mouse_down(&mut self, hit: Option<usize>)
        ensures
            final(self).mouse_down_index == (match hit {
                Some(ix) => Some(ix),
                None => old(self).mouse_down_index,
            }),
            final(self).hovered_index == old(self).hovered_index,
    {
        match hit {
            Some(ix) => {
                self.mouse_down_index = Some(ix);
            },
            None => {},
        }
    }

    /// Resolves a mouse release: when a press was pending, it is cleared,
    /// and if the release hit, a click from the press offset to the
    /// release offset is reported; without a pending press nothing
    /// happens.
    pub fn on_mouse_up(&mut self, hit: Option<usize>) -> (r: Option<(usize, usize)>)
        ensures
            final(self).hovered_index == old(self).hovered_index,
            (match old(self).mouse_down_index {
                Some(down) => final(self).mouse_down_index.is_none() && r == (match hit {
                    Some(up) => Some((down, up)),
                    None => None::<(usize, usize)>,
                }),
                None => *final(self) == *old(self) && r.is_none(),
            }),
    {
        match self.mouse_down_index {
            Some(down) => {
                self.mouse_down_index = None;
                match hit {
                    Some(up) => Some((down, up)),
                    None => None,
                }
            },
            None => None,
        }
    }

    /// Tracks the hovered offset across a mouse move: the state takes the
    /// new hit, and the report says whether it changed, which is when a
    /// hover listener must be told.
    pub fn update_hover(&mut self, hit: Option<usize>) -> (changed: bool)
        ensures
            final(self).hovered_index == hit,
            final(self).mouse_down_index == old(self).mouse_down_index,
            changed <==> old(self).hovered_index != hit,
    {
        let changed = match (&self.hovered_index, &hit) {
            (Some(a), Some(b)) => *a != *b,
            (None, None) => false,
            _ => true,
        };
        self.hovered_index = hit;
        changed
    }
}

impl Default for InteractiveTextState {
    /// A fresh state, as `new` builds it.
    fn default() -> (r: InteractiveTextState)
        ensures
            r.mouse_down_index.is_none(),
            r.hovered_index.is_none(),
    {
        InteractiveTextState::new()
    }
}

} // verus!
