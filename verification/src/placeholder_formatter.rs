use vstd::prelude::*;

use crate::semantics::as_ints;
use crate::semantics::kv_model;
use crate::semantics::spec_extract;
use crate::semantics::spec_measure;
use crate::semantics::spec_replace;
use vstd::hash_map::StringHashMap;

verus! {

/// The three operations over the placeholder grammar.
///
/// All three scan the input once, left to right, and are specified against
/// the same event model: `%n` and `%%` expand to one character, `%(key)` is
/// resolved through the mapping under the pending alignment directive, the
/// directives `%<(...)` / `%>(...)` set that pending directive for exactly
/// the next key placeholder, and every malformed placeholder or unresolved
/// key degrades to its raw text.  All widths and counts are in Unicode
/// scalar values.
pub trait PlaceholderFormatter {
    /// Replaces placeholders in `inp` with values from `key_value`.
    ///
    /// Malformed placeholders and keys absent from the mapping are kept
    /// verbatim in the output.
    fn replace_placeholders(&self, key_value: &StringHashMap<String>, inp: &str) -> (out: String)
        ensures
            out@ == spec_replace(kv_model(key_value@), inp@),
    ;

    /// Measures the scalar-value length of `inp` with placeholders
    /// hypothetically replaced.
    ///
    /// Entry 0 of the result is that total length; each following entry is
    /// the rendered width of one resolved key placeholder, in encounter
    /// order.  Malformed placeholders and unresolved keys count towards the
    /// total with their raw length and get no entry of their own.
    fn measure_lengths(&self, key_value: &StringHashMap<String>, inp: &str) -> (out: Vec<usize>)
        requires
            spec_measure(kv_model(key_value@), inp@)[0] <= usize::MAX,
        ensures
            as_ints(out@) == spec_measure(kv_model(key_value@), inp@),
    ;

    /// Lists the keys of all well-formed `%(key)` placeholders in `inp`, in
    /// encounter order, duplicates preserved, whether or not any mapping
    /// could resolve them.
    fn extract_placeholder_keys(&self, inp: &str) -> (out: Vec<String>)
        ensures
            out.deep_view() == spec_extract(inp@),
    ;
}

} // verus!
