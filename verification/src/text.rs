//! Text layout boxes, modelled down to what the text logic reads.

use vstd::prelude::*;

verus! {

/// A render box of the layout tree. Layout geometry lives with the driver;
/// the text logic only reads which kind a box is and, for an unscanned text
/// box, its raw text.
pub enum RenderBox {
    GenericBox,
    ImageBox,
    TextBox,
    UnscannedTextBox(String),
}

/// Reading the raw text out of a box that has one.
pub trait UnscannedMethods {
    /// The raw text this box carries, if it is an unscanned text box.
    spec fn unscanned_text(&self) -> Option<Seq<char>>;

    /// The raw text of an unscanned text box. Asking any other kind of box
    /// is a caller error, so only a box that has the text may be asked.
    fn raw_text(&self) -> (r: String)
        requires
            self.unscanned_text() is Some,
        ensures
            Some(r@) == self.unscanned_text(),
    ;
}

impl UnscannedMethods for RenderBox {
    open spec fn unscanned_text(&self) -> Option<Seq<char>> {
        match self {
            RenderBox::UnscannedTextBox(text) => Some(text@),
            _ => None,
        }
    }

    fn raw_text(&self) -> (r: String) {
        match self {
            RenderBox::UnscannedTextBox(text) => text.clone(),
            _ => vstd::pervasive::unreached(),
        }
    }
}

} // verus!
