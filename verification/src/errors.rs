use vstd::prelude::*;

verus! {

/// Why an interactive step cannot go on.
#[derive(Clone, Copy, Debug, PartialEq, Eq, Structural)]
pub enum AppError {
    /// The navigation stack no longer resolves to a node of the document.
    PointerResolution,
    /// The focused node is a scalar, so there is nothing to enumerate.
    TypeMismatch,
    /// The cursor index exceeds the size of the current view.
    SelectionOutOfRange,
    /// The pending text of an edit is not valid JSON at commit time.
    MalformedEdit,
}

} // verus!
