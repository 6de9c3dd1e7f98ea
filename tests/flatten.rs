use json2env::{format_env, EnvVar, JsonParser, JsonValue, ParseOptions};

const KEY: &str = r#""key""#;

fn num(text: &str) -> JsonValue {
    JsonValue::Number(text.to_string())
}

fn text(s: &str) -> JsonValue {
    JsonValue::String(s.to_string())
}

fn object(fields: Vec<(&str, JsonValue)>) -> JsonValue {
    JsonValue::Object(fields.into_iter().map(|(k, v)| (k.to_string(), v)).collect())
}

fn var(key: &str, value: JsonValue) -> EnvVar {
    EnvVar(key.to_string(), value)
}

fn parse_with(json: &JsonValue, key_separator: &str, array_separator: &str, enumerate: bool) -> Vec<EnvVar> {
    let options = ParseOptions::new(key_separator.to_string(), array_separator.to_string(), enumerate);
    let mut parser = JsonParser::new(options);
    parser.parse(json)
}

#[test]
fn build_key_should_leave_key_unchanged_when_prefix_is_empty() {
    let separator = "";
    let input = KEY.to_owned();
    let expected = KEY;

    let result = JsonParser::build_key("", &input, separator);

    assert_eq!(result, expected);
}

#[test]
fn build_key_should_leave_prepend_prefix_with_separator() {
    let separator = "_";
    let input = KEY.to_owned();
    let expected = format!("prefix{separator}{KEY}");

    let actual = JsonParser::build_key("prefix", &input, separator);

    assert_eq!(actual, expected);
}

#[test]
fn bool_env_var_should_be_formatted_correctly() {
    let input = EnvVar(KEY.to_owned(), JsonValue::Bool(true));

    let result = input.to_string();

    assert_eq!(result, r#""key"=true"#)
}

#[test]
fn numeric_env_var_should_be_formatted_correctly() {
    let input = EnvVar(KEY.to_owned(), num("1.0"));

    let result = input.to_string();

    assert_eq!(result, r#""key"=1.0"#)
}

#[test]
fn string_env_var_should_be_formatted_correctly() {
    let input = EnvVar(KEY.to_owned(), text("hello"));

    let result = input.to_string();

    assert_eq!(result, r#""key"="hello""#)
}

#[test]
fn array_env_var_should_be_formatted_correctly() {
    let input = EnvVar(KEY.to_owned(), JsonValue::Array(vec![num("1"), num("2")]));

    let result = input.to_string();

    assert_eq!(result, "")
}

#[test]
fn object_env_var_should_be_formatted_correctly() {
    let input = EnvVar(KEY.to_owned(), object(vec![("key", text("value"))]));

    let result = input.to_string();

    assert_eq!(result, "")
}

#[test]
fn parse_array_not_enumerated() {
    let json = object(vec![("array", JsonValue::Array(vec![num("1"), num("2"), num("3")]))]);
    let options = ParseOptions::new("__".to_string(), ",".to_string(), false);
    let mut parser = JsonParser::new(options);

    let environ = parser.parse(&json);

    assert_eq!(*environ, vec![EnvVar("array".to_string(), JsonValue::String("1,2,3".to_string()))])
}

#[test]
fn parse_array_enumerated() {
    let json = object(vec![("array", JsonValue::Array(vec![num("1"), num("2"), num("3")]))]);
    let options = ParseOptions::new("__".to_string(), ",".to_string(), true);
    let mut parser = JsonParser::new(options);

    let environ = parser.parse(&json);

    assert_eq!(
        *environ,
        vec![
            EnvVar("array__0".to_string(), num("1")),
            EnvVar("array__1".to_string(), num("2")),
            EnvVar("array__2".to_string(), num("3"))
        ]
    )
}

#[test]
fn scalar_root_gives_one_entry_with_empty_key() {
    let scalars = || vec![JsonValue::Null, JsonValue::Bool(false), num("-2.5e3"), text(" x ")];
    for (value, expected) in scalars().into_iter().zip(scalars()) {
        assert_eq!(parse_with(&value, "__", ",", false), vec![EnvVar(String::new(), expected)]);
    }
}

#[test]
fn object_fields_keep_document_order() {
    let json = object(vec![("b", num("2")), ("a", num("1"))]);
    assert_eq!(parse_with(&json, "__", ",", false), vec![var("b", num("2")), var("a", num("1"))]);

    let json = object(vec![("a", num("1")), ("b", num("2"))]);
    assert_eq!(parse_with(&json, "__", ",", false), vec![var("a", num("1")), var("b", num("2"))]);
}

#[test]
fn complex_items_force_enumeration() {
    let json = object(vec![(
        "array",
        JsonValue::Array(vec![num("1"), object(vec![("x", num("2"))])]),
    )]);
    let environ = parse_with(&json, "__", ",", false);
    assert_eq!(environ, vec![var("array__0", num("1")), var("array__1__x", num("2"))]);
    assert_eq!(format_env(&environ), "array__0=1\narray__1__x=2");
}

#[test]
fn nested_arrays_force_enumeration() {
    let json = JsonValue::Array(vec![JsonValue::Array(vec![num("1"), num("2")]), num("3")]);
    let environ = parse_with(&json, ".", ";", false);
    assert_eq!(environ, vec![var("0", text("1;2")), var("1", num("3"))]);
}

#[test]
fn quotes_in_string_values_are_escaped() {
    let entry = var("k", text(r#"he said "hi""#));
    assert_eq!(entry.to_string(), r#"k="he said \"hi\"""#);
}

#[test]
fn backslashes_and_newlines_in_string_values_pass_through() {
    let entry = var("k", text("a\\b\nc"));
    assert_eq!(entry.to_string(), "k=\"a\\b\nc\"");
}

#[test]
fn scalars_are_formatted_literally() {
    assert_eq!(var("k", JsonValue::Null).to_string(), "k=null");
    assert_eq!(var("k", JsonValue::Bool(true)).to_string(), "k=true");
    assert_eq!(var("k", JsonValue::Bool(false)).to_string(), "k=false");
    assert_eq!(var("k", num("1.0")).to_string(), "k=1.0");
}

#[test]
fn parsing_twice_gives_identical_output() {
    let json = object(vec![
        ("name", text("x \"y\"")),
        ("list", JsonValue::Array(vec![JsonValue::Null, JsonValue::Bool(true), text("a\"b\\c")])),
        ("deep", object(vec![("n", num("7"))])),
    ]);
    let options = ParseOptions::new("__".to_string(), ",".to_string(), false);
    let mut parser = JsonParser::new(options);
    let first = format_env(&parser.parse(&json));
    let second = format_env(&parser.parse(&json));
    assert_eq!(first, second);
    assert_eq!(first, "name=\"x \\\"y\\\"\"\nlist=\"null,true,abc\"\ndeep__n=7");
}

#[test]
fn collapsed_items_lose_backslashes_and_quotes() {
    let json = object(vec![("v", JsonValue::Array(vec![text("a\\\"b"), num("2"), JsonValue::Null]))]);
    assert_eq!(parse_with(&json, "__", " | ", false), vec![var("v", text("ab | 2 | null"))]);
}

#[test]
fn empty_containers_give_no_entries() {
    assert_eq!(parse_with(&object(vec![]), "__", ",", false), vec![]);
    assert_eq!(parse_with(&JsonValue::Array(vec![]), "__", ",", true), vec![]);
    let json = object(vec![("a", object(vec![])), ("b", JsonValue::Array(vec![])), ("c", num("1"))]);
    assert_eq!(parse_with(&json, "__", ",", true), vec![var("c", num("1"))]);
}

#[test]
fn empty_array_gives_no_entry_when_not_enumerated() {
    let json = object(vec![("a", JsonValue::Array(vec![])), ("b", num("1"))]);
    assert_eq!(parse_with(&json, "__", ",", false), vec![var("b", num("1"))]);
    assert_eq!(parse_with(&JsonValue::Array(vec![]), "__", ",", false), vec![]);
}

#[test]
fn indices_are_written_in_decimal() {
    let items: Vec<JsonValue> = (0..12).map(|i| num(&i.to_string())).collect();
    let json = object(vec![("n", JsonValue::Array(items))]);
    let environ = parse_with(&json, "_", ",", true);
    assert_eq!(environ.len(), 12);
    assert_eq!(environ[10], var("n_10", num("10")));
    assert_eq!(environ[11], var("n_11", num("11")));
}

#[test]
fn keys_are_trimmed_when_emitted() {
    let json = object(vec![(" \tspaced\n", num("1"))]);
    assert_eq!(parse_with(&json, "__", ",", false), vec![var("spaced", num("1"))]);
    let json = object(vec![(" a ", object(vec![("b ", num("1"))]))]);
    assert_eq!(parse_with(&json, "::", ",", false), vec![var("a ::b", num("1"))]);
}

#[test]
fn format_env_joins_lines_without_trailing_newline() {
    assert_eq!(format_env(&[]), "");
    assert_eq!(format_env(&[var("a", num("1"))]), "a=1");
    assert_eq!(format_env(&[var("a", num("1")), var("b", text("x"))]), "a=1\nb=\"x\"");
}

#[test]
fn decimal_string_writes_digits() {
    assert_eq!(json2env::text::decimal_string(0), "0");
    assert_eq!(json2env::text::decimal_string(907), "907");
    assert_eq!(json2env::text::decimal_string(usize::MAX), usize::MAX.to_string());
}

#[test]
fn clones_are_deep_and_equal() {
    let json = object(vec![
        ("a", JsonValue::Array(vec![num("1"), object(vec![("x", text("q\""))])])),
        ("b", JsonValue::Null),
    ]);
    let copy = json.clone();
    assert_eq!(copy, json);
    let entry = var("k", json.clone());
    assert_eq!(entry.clone(), entry);
    let parser = JsonParser::new(ParseOptions::new("__".to_string(), ",".to_string(), false));
    let mut first = parser.clone();
    let mut second = parser;
    assert_eq!(first.parse(&copy), second.parse(&json));
}
