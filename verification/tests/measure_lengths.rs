use formatify::{Formatify, PlaceholderFormatter, StringHashMap};

fn standard_map() -> StringHashMap<String> {
    let mut key_value: StringHashMap<String> = StringHashMap::new();
    key_value.insert("var1".to_string(), "world".to_string());
    key_value.insert("var2".to_string(), "welt".to_string());
    key_value.insert("str4".to_string(), "1234".to_string());
    key_value.insert("str10".to_string(), "1234567890".to_string());
    key_value.insert("str14".to_string(), "1234567890ABCD".to_string());
    key_value.insert("umlaute".to_string(), "äöü".to_string());
    key_value.insert("umlaute_bigger".to_string(), "äöü12345678".to_string());
    key_value
}

fn measure(inp: &str) -> Vec<usize> {
    let key_value = standard_map();
    let parser = Formatify::new();
    parser.measure_lengths(&key_value, inp)
}

#[test]
fn test_with_empty_input_returns_vec0() {
    assert_eq!(measure(""), vec![0usize]);
}

#[test]
fn test_with_plain_string_returns_correct_length() {
    assert_eq!(measure("Conventional string"), vec![19usize]);
}

#[test]
fn test_with_unicode_string_returns_correct_length() {
    assert_eq!(measure("Smiley 😊 Smiley"), vec![15usize]);
}

#[test]
fn test_with_single_placeholder_measures_correctly() {
    assert_eq!(measure("Hello %(var1)"), vec![11usize, 5usize]);
}

#[test]
fn test_with_invalid_token_type_counts_length_of_unreplaced_string() {
    assert_eq!(measure("Hallo %z"), vec![8usize]);
}

#[test]
fn test_with_one_char_token_type_counts_length_of_replaced_char() {
    assert_eq!(measure("abcde %%"), vec![7usize]);
}

#[test]
fn test_with_multiple_placeholders_return_correct_length_of_string_and_placeholders() {
    assert_eq!(measure("Hello %(var1). Hallo %(var2)."), vec![24usize, 5usize, 4usize]);
}

#[test]
fn test_with_undefined_second_placeholder_return_correct_length_of_string_and_placeholders() {
    assert_eq!(measure("Hallo %(var1)%(vara)"), vec![18usize, 5usize]);
}

#[test]
fn test_with_left_alignment_placeholder_and_shorter_value_returns_correct_length() {
    assert_eq!(measure("Hallo %<(10)%(str4)xx"), vec![18usize, 10usize]);
}

#[test]
fn test_with_right_alignment_placeholder_and_shorter_returns_correct_length() {
    assert_eq!(measure("Hallo %>(10)%(str4)xx"), vec![18usize, 10usize]);
}

#[test]
fn test_with_left_alignment_placeholder_and_exact_length_value_returns_correct_length() {
    assert_eq!(measure("Hallo %<(10)%(str10)xx"), vec![18usize, 10usize]);
}

#[test]
fn test_with_right_alignment_placeholder_and_exact_length_value_returns_correct_length() {
    assert_eq!(measure("Hallo %>(10)%(str10)xx"), vec![18usize, 10usize]);
}

#[test]
fn test_with_left_alignment_placeholder_and_longer_value_returns_correct_length() {
    assert_eq!(measure("Hallo %<(10)%(str14)xx"), vec![22usize, 14usize]);
}

#[test]
fn test_with_right_alignment_placeholder_and_longer_value_returns_correct_length() {
    assert_eq!(measure("Hallo %>(10)%(str14)xx"), vec![22usize, 14usize]);
}

#[test]
fn test_with_right_align_truncate_placeholder_and_shorter_value_with_umlauts_returns_correct_length(
) {
    assert_eq!(measure("Hallo %>(10,trunc)%(umlaute)xx"), vec![18usize, 10usize]);
}

#[test]
fn test_with_left_align_truncate_placeholder_and_shorter_value_with_umlauts_returns_correct_length()
{
    assert_eq!(measure("Hallo %<(10,trunc)%(umlaute)xx"), vec![18usize, 10usize]);
}

#[test]
fn test_with_left_align_truncate_placeholder_and_exact_length_value_returns_correct_length() {
    assert_eq!(measure("Hallo %<(10,trunc)%(str10)xx"), vec![18usize, 10usize]);
}

#[test]
fn test_with_left_align_truncate_placeholder_and_longer_value_returns_correct_length() {
    assert_eq!(measure("Hallo %<(10,trunc)%(str14)xx"), vec![18usize, 10usize]);
}

#[test]
fn test_with_right_align_truncate_placeholder_and_longer_value_returns_correct_length() {
    assert_eq!(measure("Hallo %>(10,trunc)%(str14)xx"), vec![18usize, 10usize]);
}
