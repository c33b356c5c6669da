use vstd::prelude::*;

verus! {

/// A dotted horizontal rule with a label in its middle.
pub struct LabelRuler {
    pub label: String,
    pub bg_color: u32,
    pub ruler_color: u32,
    pub label_color: u32,
    pub start_x: usize,
    pub end_x: usize,
    pub y: usize,
}

impl LabelRuler {
    /// Column where the label starts, so that it sits in the middle of the
    /// rule.
    pub fn label_x(&self) -> (r: usize)
        requires
            self.start_x + self.end_x <= usize::MAX,
            self.label@.len() / 2 <= (self.start_x + self.end_x) / 2,
        ensures
            r == (self.start_x + self.end_x) / 2 - self.label@.len() / 2,
    {
        (self.start_x + self.end_x) / 2 - self.label.as_str().unicode_len() / 2
    }
}

/// A dotted horizontal rule.
pub struct VerticalSeparator {
    pub bg_color: u32,
    pub ruler_color: u32,
    pub start_x: usize,
    pub end_x: usize,
    pub y: usize,
}

} // verus!
