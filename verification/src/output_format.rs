use vstd::prelude::*;

verus! {

/// Pending alignment directive.
///
/// A format directive placeholder (`%<(width)`, `%>(width,trunc)`, ...)
/// stores one of these; the directive is consumed by the next key
/// placeholder and then falls back to `Plain`.  `width` counts Unicode
/// scalar values.
#[derive(Clone, Copy, PartialEq, Eq, Structural)]
pub enum OutputFormat {
    /// No directive pending: replacements are inserted unmodified.
    Plain,
    /// Pad the replacement on the right up to the given width.
    LeftAlign(u32),
    /// Like `LeftAlign`, but longer replacements are cut to `width - 1`
    /// leading characters plus an ellipsis.
    LeftAlignTrunc(u32),
    /// Pad the replacement on the left up to the given width.
    RightAlign(u32),
    /// Like `RightAlign`, but longer replacements are cut to `width - 1`
    /// leading characters plus an ellipsis.
    RightAlignTrunc(u32),
    /// Like `RightAlign`, but longer replacements are cut to an ellipsis
    /// plus the `width - 1` trailing characters.
    RightAlignLTrunc(u32),
}

} // verus!
