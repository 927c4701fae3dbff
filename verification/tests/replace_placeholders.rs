use formatify::{Formatify, PlaceholderFormatter, StringHashMap};

fn standard_map() -> StringHashMap<String> {
    let mut key_value: StringHashMap<String> = StringHashMap::new();
    key_value.insert("var1".to_string(), "world".to_string());
    key_value.insert("var2".to_string(), "welt".to_string());
    key_value.insert("str4".to_string(), "1234".to_string());
    key_value.insert("str10".to_string(), "1234567890".to_string());
    key_value.insert("str14".to_string(), "1234567890ABCD".to_string());
    key_value.insert("umlaute".to_string(), "äöü".to_string());
    key_value.insert("umlaute_bigger".to_string(), "äöü12345678".to_string());
    key_value
}

fn replace(inp: &str) -> String {
    let key_value = standard_map();
    let parser = Formatify::new();
    parser.replace_placeholders(&key_value, inp)
}

#[test]
fn test_with_empty_input_returns_empty_string() {
    assert_eq!(replace(""), "");
}

#[test]
fn test_with_plain_string_returns_same_string() {
    assert_eq!(replace("Conventional string"), "Conventional string");
}

#[test]
fn test_with_unicode_string_returns_same_string() {
    assert_eq!(replace("Smiley 😊 Smiley"), "Smiley 😊 Smiley");
}

#[test]
fn test_with_single_placeholder_replaces_correctly() {
    assert_eq!(replace("Hello %(var1)"), "Hello world");
}

#[test]
fn test_with_single_placeholder_alternative_value_replaces_correctly() {
    assert_eq!(replace("Hello %(var2)"), "Hello welt");
}

#[test]
fn test_with_one_char_token_type_replaces_correctly() {
    assert_eq!(replace("abcde %%"), "abcde %");
}

#[test]
fn test_with_invalid_token_type_leaves_token_unreplaced() {
    assert_eq!(replace("Hallo %z"), "Hallo %z");
}

#[test]
fn test_with_multiple_placeholders_replaces_all_correctly() {
    assert_eq!(replace("Hello %(var1). Hallo %(var2)."), "Hello world. Hallo welt.");
}

#[test]
fn test_with_multiple_placeholders_and_delimiters_replaces_correctly() {
    assert_eq!(replace("|%(var1)|%(var2)|"), "|world|welt|");
}

#[test]
fn test_with_undefined_second_placeholder_keeps_it_unreplaced() {
    assert_eq!(replace("Hallo %(var1)%(vara)"), "Hallo world%(vara)");
}

#[test]
fn test_with_undefined_first_placeholder_keeps_it_unreplaced() {
    assert_eq!(replace("Hallo %(vara)%(var2)"), "Hallo %(vara)welt");
}

#[test]
fn test_with_incorrect_placeholder_syntax_keeps_it_unreplaced() {
    assert_eq!(replace("Hallo %var1"), "Hallo %var1");
}

#[test]
fn test_with_incomplete_placeholder_syntax_keeps_it_unreplaced() {
    assert_eq!(replace("Hallo %(var1"), "Hallo %(var1");
}

#[test]
fn test_with_newline_placeholder_inserts_newline() {
    assert_eq!(replace("Hallo %nWelt"), "Hallo \nWelt");
}

#[test]
fn test_with_escaped_percent_sign_keeps_it_unchanged() {
    assert_eq!(replace("Hallo %%(var1)"), "Hallo %(var1)");
}

#[test]
fn test_with_newline_placeholder_at_end_inserts_newline() {
    assert_eq!(replace("Hallo Welt %n"), "Hallo Welt \n");
}

#[test]
fn test_with_left_alignment_placeholder_and_shorter_value_pads_correctly() {
    assert_eq!(replace("Hallo %<(10)%(str4)xx"), "Hallo 1234      xx");
}

#[test]
fn test_with_right_alignment_placeholder_and_shorter_value_pads_correctly() {
    assert_eq!(replace("Hallo %>(10)%(str4)xx"), "Hallo       1234xx");
}

#[test]
fn test_with_left_alignment_placeholder_and_exact_length_value_keeps_it_unchanged() {
    assert_eq!(replace("Hallo %<(10)%(str10)xx"), "Hallo 1234567890xx");
}

#[test]
fn test_with_right_alignment_placeholder_and_exact_length_value_keeps_it_unchanged() {
    assert_eq!(replace("Hallo %>(10)%(str10)xx"), "Hallo 1234567890xx");
}

#[test]
fn test_with_left_alignment_placeholder_and_longer_value_keeps_it_unchanged() {
    assert_eq!(replace("Hallo %<(10)%(str14)xx"), "Hallo 1234567890ABCDxx");
}

#[test]
fn test_with_right_alignment_placeholder_and_longer_value_keeps_it_unchanged() {
    assert_eq!(replace("Hallo %>(10)%(str14)xx"), "Hallo 1234567890ABCDxx");
}

#[test]
fn test_with_left_align_truncate_placeholder_and_exact_length_value_keeps_it_unchanged() {
    assert_eq!(replace("Hallo %<(10,trunc)%(str10)xx"), "Hallo 1234567890xx");
}

#[test]
fn test_with_right_align_truncate_placeholder_and_exact_length_value_keeps_it_unchanged() {
    assert_eq!(replace("Hallo %>(10,trunc)%(str10)xx"), "Hallo 1234567890xx");
}

#[test]
fn test_with_left_align_truncate_placeholder_and_exact_length_value_with_spaces_keeps_it_unchanged()
{
    assert_eq!(replace("Hallo %<(  10  ,  trunc   )%(str10)xx"), "Hallo 1234567890xx");
}

#[test]
fn test_with_right_align_truncate_placeholder_and_longer_value_truncates_correctly() {
    assert_eq!(replace("Hallo %>(10,trunc)%(str14)xx"), "Hallo 123456789…xx");
}

#[test]
fn test_with_right_align_left_truncate_placeholder_and_longer_value_truncates_correctly() {
    assert_eq!(replace("Hallo %>(10,ltrunc)%(str14)xx"), "Hallo …67890ABCDxx");
}

#[test]
fn test_with_left_align_truncate_placeholder_and_longer_value_truncates_correctly() {
    assert_eq!(replace("Hallo %<(10,trunc)%(str14)xx"), "Hallo 123456789…xx");
}

#[test]
fn test_with_right_align_truncate_placeholder_and_shorter_value_with_umlauts_pads_correctly() {
    assert_eq!(replace("Hallo %>(10,trunc)%(umlaute)xx"), "Hallo        äöüxx");
}

#[test]
fn test_with_left_align_truncate_placeholder_and_shorter_value_with_umlauts_pads_correctly() {
    assert_eq!(replace("Hallo %<(10,trunc)%(umlaute)xx"), "Hallo äöü       xx");
}

#[test]
fn test_with_left_align_truncate_placeholder_and_longer_value_with_umlauts_truncates_correctly() {
    assert_eq!(replace("Hallo %<(10,trunc)%(umlaute_bigger)xx"), "Hallo äöü123456…xx");
}

#[test]
fn test_with_invalid_left_align_placeholder_keeps_format_specifier_unchanged() {
    assert_eq!(replace("Hallo %<(a10)%(str14)xx"), "Hallo %<(a10)1234567890ABCDxx");
}
