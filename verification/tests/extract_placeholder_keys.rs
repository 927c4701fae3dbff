use formatify::{Formatify, PlaceholderFormatter};

fn extract(inp: &str) -> Vec<String> {
    let parser = Formatify::new();
    parser.extract_placeholder_keys(inp)
}

#[test]
fn test_with_empty_input_returns_empty_vec() {
    assert_eq!(extract(""), Vec::<String>::new());
}

#[test]
fn test_with_plain_string_returns_empty_vec() {
    assert_eq!(extract("Conventional string"), Vec::<String>::new());
}

#[test]
fn test_with_unicode_string_returns_empty_vec() {
    assert_eq!(extract("Smiley 😊 Smiley"), Vec::<String>::new());
}

#[test]
fn test_with_single_placeholder_returns_one_placeholder() {
    assert_eq!(extract("Hello %(var1)"), vec!["var1"]);
}

#[test]
fn test_with_multiple_placeholders_return_two_placeholders() {
    assert_eq!(extract("Hello %(var1). Hallo %(var2)."), vec!["var1", "var2"]);
}

#[test]
fn test_with_undefined_second_placeholder_returns_two_placeholders() {
    assert_eq!(extract("Hallo %(var1)%(vara)"), vec!["var1", "vara"]);
}

#[test]
fn test_with_incomplete_placeholder_syntax_returns_empty_vec() {
    assert_eq!(extract("Hallo %(var1"), Vec::<String>::new());
}

#[test]
fn test_with_duplicate_placeholders_preserves_duplicates() {
    assert_eq!(extract("%(a)%(b)%(a)"), vec!["a", "b", "a"]);
}

#[test]
fn test_with_format_directives_ignores_them() {
    assert_eq!(extract("x %<(10)%(name) %>(3,ltrunc)%(day)"), vec!["name", "day"]);
}
