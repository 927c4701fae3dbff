use vstd::prelude::*;

use crate::output_format::OutputFormat;
use crate::peek_char_iterator::PeekCharIterator;
use vstd::hash_map::StringHashMap;

verus! {

/// The state threaded through one full scan: a borrow of the key/value
/// mapping, the character cursor, the accumulator of the active
/// interpretation, and the pending alignment directive.
pub struct ParsingContext<'a, T> {
    pub key_value: &'a StringHashMap<String>,
    pub iter: PeekCharIterator,
    pub vout: Vec<T>,
    pub format: OutputFormat,
}

impl<'a, T> ParsingContext<'a, T> {
    /// A context is well formed when its cursor is.
    pub open spec fn wf(&self) -> bool {
        self.iter.wf()
    }
}

} // verus!
