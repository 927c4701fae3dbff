use formatify::peek_char_iterator::PeekCharIterator;
use formatify::{Formatify, PlaceholderFormatter, StringHashMap};

fn standard_map() -> StringHashMap<String> {
    let mut key_value: StringHashMap<String> = StringHashMap::new();
    key_value.insert("var1".to_string(), "world".to_string());
    key_value.insert("str4".to_string(), "1234".to_string());
    key_value.insert("str10".to_string(), "1234567890".to_string());
    key_value.insert("str14".to_string(), "1234567890ABCD".to_string());
    key_value.insert("umlaute".to_string(), "äöü".to_string());
    key_value
}

fn replace(inp: &str) -> String {
    Formatify::new().replace_placeholders(&standard_map(), inp)
}

fn measure(inp: &str) -> Vec<usize> {
    Formatify::new().measure_lengths(&standard_map(), inp)
}

#[test]
fn scenario_simple_substitution() {
    assert_eq!(replace("Hello, %(var1)!"), "Hello, world!");
}

#[test]
fn scenario_left_align_pads_to_width() {
    assert_eq!(replace("Hallo %<(10)%(str4)xx"), "Hallo 1234      xx");
}

#[test]
fn scenario_right_align_trunc_cuts_tail() {
    assert_eq!(replace("Hallo %>(10,trunc)%(str14)xx"), "Hallo 123456789…xx");
}

#[test]
fn scenario_right_align_ltrunc_cuts_head() {
    assert_eq!(replace("Hallo %>(10,ltrunc)%(str14)xx"), "Hallo …67890ABCDxx");
}

#[test]
fn scenario_measure_totals_and_entries() {
    assert_eq!(measure("Hello, %(var1)! This is a test."), vec![29usize, 5usize]);
}

#[test]
fn scenario_extract_keys_in_order() {
    let keys = Formatify::new().extract_placeholder_keys("Hello, %(name)! Today is %(day).");
    assert_eq!(keys, vec!["name", "day"]);
}

#[test]
fn scenario_incomplete_syntax_passes_through_verbatim() {
    assert_eq!(replace("Hallo %(var1"), "Hallo %(var1");
}

#[test]
fn escaped_percent_always_yields_one_percent() {
    assert_eq!(replace("%%"), "%");
    assert_eq!(replace("a%%b%%c"), "a%b%c");
}

#[test]
fn newline_escape_always_yields_newline() {
    assert_eq!(replace("%n"), "\n");
    assert_eq!(replace("a%nb"), "a\nb");
}

#[test]
fn padding_counts_scalar_values_not_bytes() {
    // "äöü" has 3 scalar values and 6 bytes: the pad is 5 - 3 spaces.
    assert_eq!(replace("%<(5)%(umlaute)"), "äöü  ");
    assert_eq!(measure("%(umlaute)"), vec![3usize, 3usize]);
}

#[test]
fn truncation_yields_exactly_the_width() {
    let out = replace("%<(10,trunc)%(str14)");
    assert_eq!(out.chars().count(), 10);
    let out = replace("%>(10,ltrunc)%(str14)");
    assert_eq!(out.chars().count(), 10);
}

#[test]
fn measured_total_equals_replaced_length() {
    let inputs = [
        "",
        "plain text",
        "Smiley 😊 %(umlaute) %<(7)%(str4) %>(3,trunc)%(str14)",
        "bad %z %( %<(0) %(missing) end %",
    ];
    for inp in inputs {
        let replaced = replace(inp);
        let lengths = measure(inp);
        assert_eq!(lengths[0], replaced.chars().count());
    }
}

#[test]
fn trailing_percent_passes_through_verbatim() {
    assert_eq!(replace("Hallo %"), "Hallo %");
    assert_eq!(measure("Hallo %"), vec![7usize]);
}

#[test]
fn key_run_ending_off_a_paren_passes_through_verbatim() {
    assert_eq!(replace("Hallo %(var1!"), "Hallo %(var1!");
}

#[test]
fn zero_width_is_an_invalid_width() {
    assert_eq!(replace("%<(0)%(str4)"), "%<(0)1234");
}

#[test]
fn oversized_width_is_an_invalid_width() {
    assert_eq!(replace("%<(99999999999)%(str4)"), "%<(99999999999)1234");
}

#[test]
fn missing_close_paren_after_width_passes_through() {
    assert_eq!(replace("%<(10 %(str4)"), "%<(10 1234");
}

#[test]
fn unknown_truncation_keyword_passes_through() {
    assert_eq!(replace("%>(10,xyz)%(str4)"), "%>(10,xyz)1234");
}

#[test]
fn ltrunc_is_not_accepted_for_left_alignment() {
    assert_eq!(replace("%<(10,ltrunc)%(str14)"), "%<(10,ltrunc)1234567890ABCD");
}

#[test]
fn spaces_inside_directive_parentheses_are_ignored() {
    assert_eq!(replace("Hallo %>( 10 )%(str4)xx"), "Hallo       1234xx");
    assert_eq!(replace("Hallo %>( 10 , ltrunc )%(str14)xx"), "Hallo …67890ABCDxx");
}

#[test]
fn directive_survives_literals_until_the_next_key_placeholder() {
    assert_eq!(replace("%<(5)x%(str4)"), "x1234 ");
}

#[test]
fn later_directive_overrides_earlier_one() {
    assert_eq!(replace("%<(5)%>(7)%(str4)"), "   1234");
}

#[test]
fn directive_without_key_placeholder_has_no_visible_effect() {
    assert_eq!(replace("ab %<(5) cd"), "ab  cd");
    assert_eq!(measure("ab %<(5) cd"), vec![6usize]);
}

#[test]
fn directive_is_consumed_by_one_key_placeholder_only() {
    assert_eq!(replace("%<(6)%(str4)|%(str4)|"), "1234  |1234|");
}

#[test]
fn replacement_is_single_pass_and_not_idempotent() {
    // One pass turns each `%%` into one `%`; the output is not re-parsed,
    // so a second pass over the result may change it again.
    let once = replace("%%%%");
    assert_eq!(once, "%%");
    let twice = Formatify::new().replace_placeholders(&standard_map(), &once);
    assert_eq!(twice, "%");
}

#[test]
fn doc_example_replaces_and_aligns() {
    let mut key_value: StringHashMap<String> = StringHashMap::new();
    key_value.insert("name".to_string(), "Alice".to_string());
    key_value.insert("date".to_string(), "Monday".to_string());
    let formatter = Formatify::new();
    let formatted = formatter.replace_placeholders(&key_value, "Hello, %(name)! Today is %<(10)%(date).");
    assert_eq!(formatted, "Hello, Alice! Today is Monday    .");
}

#[test]
fn empty_key_resolves_against_an_empty_key_entry() {
    let mut key_value: StringHashMap<String> = StringHashMap::new();
    key_value.insert("".to_string(), "void".to_string());
    assert_eq!(Formatify::new().replace_placeholders(&key_value, "[%()]"), "[void]");
}

#[test]
fn cursor_peek_does_not_consume() {
    let it = PeekCharIterator::new(vec!['a', 'b']);
    assert_eq!(it.peek(), Some('a'));
    assert_eq!(it.peek(), Some('a'));
}

#[test]
fn cursor_next_consumes_in_order() {
    let mut it = PeekCharIterator::new(vec!['a', 'b']);
    assert_eq!(it.next(), Some('a'));
    assert_eq!(it.peek(), Some('b'));
    assert_eq!(it.next(), Some('b'));
    assert_eq!(it.next(), None);
    assert_eq!(it.peek(), None);
}

#[test]
fn cursor_mark_to_current_returns_consumed_slice() {
    let mut it = PeekCharIterator::new(vec!['a', 'b', 'c']);
    assert_eq!(it.get_mark2cur(), None);
    it.next();
    it.mark();
    it.next();
    it.next();
    assert_eq!(it.get_mark2cur(), Some(vec!['b', 'c']));
}
