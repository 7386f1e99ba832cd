//! Lines of a unified diff as the editor's diff mode shows them.
use vstd::prelude::*;

verus! {

/// How a diff line relates the old text to the new one.
#[derive(Clone, Copy, Debug, PartialEq, Eq, Structural)]
pub enum DiffLineTag {
    Equal,
    Insert,
    Delete,
}

/// One line of a diff, with its line numbers on either side (1-based).
#[derive(Clone, Debug)]
pub struct DiffLine {
    pub tag: DiffLineTag,
    pub old_line_num: Option<usize>,
    pub new_line_num: Option<usize>,
    pub content: String,
}

/// The mathematical value of a [`DiffLine`].
pub struct DiffLineView {
    pub tag: DiffLineTag,
    pub old_line_num: Option<usize>,
    pub new_line_num: Option<usize>,
    pub content: Seq<char>,
}

impl View for DiffLine {
    type V = DiffLineView;

    open spec fn view(&self) -> DiffLineView {
        DiffLineView {
            tag: self.tag,
            old_line_num: self.old_line_num,
            new_line_num: self.new_line_num,
            content: self.content@,
        }
    }
}

impl DiffLine {
    /// A copy of this line.
    pub fn duplicate(&self) -> (r: DiffLine)
        ensures
            r@ == self@,
    {
        DiffLine {
            tag: self.tag,
            old_line_num: self.old_line_num,
            new_line_num: self.new_line_num,
            content: self.content.clone(),
        }
    }
}

/// A diff line with the given tag, line numbers and text.
pub fn make_diff_line(tag: DiffLineTag, old: Option<usize>, new: Option<usize>, content: &str) -> (r: DiffLine)
    ensures
        r@ == (DiffLineView { tag, old_line_num: old, new_line_num: new, content: content@ }),
{
    DiffLine { tag, old_line_num: old, new_line_num: new, content: content.to_owned() }
}

} // verus!
