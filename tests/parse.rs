use jtl::document::build_element;
use jtl::{parse, parse_env, ParseError, StrMap};

const SAMPLE_JTL: &str = r#"DOCTYPE=JTL
>>>ENV;
>>>foo=bar;
>>>BEGIN;
>element_id key="value">element_id>$env:foo;
>>>END;"#;

fn chars(s: &str) -> Vec<char> {
    s.chars().collect()
}

#[test]
fn test_parse() {
    let parsed = parse(SAMPLE_JTL).expect("Parsing should succeed");
    assert!(!parsed.is_empty());

    let element = parsed.get(0).unwrap();
    assert_eq!(element.get("key").unwrap(), "value");
    assert_eq!(element.get("Content").unwrap(), "bar");
    assert_eq!(element.get("Contents").unwrap(), "bar");
}

#[test]
fn test_parse_env() {
    let env_vars = parse_env(SAMPLE_JTL).expect("Parsing env should succeed");
    assert!(env_vars.contains_key("foo"));
    assert_eq!(env_vars.get("foo").unwrap(), "bar");
}

#[test]
fn test_stringify() {
    let mut element = StrMap::new();
    element.insert("key".to_string(), "value".to_string());
    element.insert("content".to_string(), "bar".to_string());
    let vec = vec![element];

    let json_str = jtl::json::stringify(&vec).expect("Stringify should succeed");
    let parsed_json: serde_json::Value = serde_json::from_str(&json_str).expect("JSON should be valid");
    assert!(parsed_json.get(0).is_some());
}

#[test]
fn test_missing_doctype() {
    let invalid_jtl = r#"No DOCTYPE here
>>>ENV;
>>>foo=bar;
>>>BEGIN;
>element_id key="value">element_id>$env:foo;
>>>END;"#;

    let err = parse(invalid_jtl).unwrap_err();
    assert_eq!(err.message(), "invalid JTL document: missing DOCTYPE");
}

#[test]
fn test_element_too_short() {
    let jtl = "DOCTYPE=JTL\n>>>BEGIN;\n>a;\n>>>END;";
    let err = parse(jtl).unwrap_err();
    assert_eq!(err.message(), "invalid element format: too short");
}

#[test]
fn sample_yields_exactly_one_record() {
    let parsed = parse(SAMPLE_JTL).unwrap();
    assert_eq!(parsed.len(), 1);
    let record = &parsed[0];
    assert_eq!(record.entries().len(), 4);
    assert_eq!(record.get("key").unwrap(), "value");
    assert_eq!(record.get("KEY").unwrap(), "element_id");
    assert_eq!(record.get("Content").unwrap(), "bar");
    assert_eq!(record.get("Contents").unwrap(), "bar");
    let env = parse_env(SAMPLE_JTL).unwrap();
    assert_eq!(env.entries().len(), 1);
    assert_eq!(env.get("foo").unwrap(), "bar");
}

#[test]
fn record_count_ignores_comments_and_blank_lines() {
    let doc = "DOCTYPE=JTL\n/* opening comment\n*/ closing\n>//> a line comment\n\n>>>BEGIN;\n\
               >a x=\"1\">one>first; >b y=\"2\">two>second;\n   \n>//> >c z=\"3\">three>third;\n\
               >d w=\"4\">four>fourth;\n>>>END;\n";
    let parsed = parse(doc).unwrap();
    assert_eq!(parsed.len(), 3);
    assert_eq!(parsed[0].get("KEY").unwrap(), "one");
    assert_eq!(parsed[1].get("KEY").unwrap(), "two");
    assert_eq!(parsed[2].get("KEY").unwrap(), "four");
    assert_eq!(parsed[2].get("w").unwrap(), "4");
}

#[test]
fn round_trip_through_json() {
    let parsed = parse(SAMPLE_JTL).unwrap();
    let text = jtl::json::stringify(&parsed).unwrap();
    let value: serde_json::Value = serde_json::from_str(&text).unwrap();
    let array = value.as_array().unwrap();
    assert_eq!(array.len(), parsed.len());
    for (record, object) in parsed.iter().zip(array.iter()) {
        let object = object.as_object().unwrap();
        assert_eq!(object.len(), record.entries().len());
        for (k, v) in record.entries().iter() {
            assert_eq!(object.get(k).unwrap().as_str().unwrap(), v);
        }
    }
}

#[test]
fn stringify_gives_exact_text() {
    let mut element = StrMap::new();
    element.insert("a".to_string(), "b".to_string());
    let text = jtl::json::stringify(&vec![element]).unwrap();
    assert_eq!(text, r#"[{"a":"b"}]"#);
    assert_eq!(jtl::json::stringify(&Vec::new()).unwrap(), "[]");
}

#[test]
fn parsing_twice_gives_identical_records() {
    let first = parse(SAMPLE_JTL).unwrap();
    let second = parse(SAMPLE_JTL).unwrap();
    assert_eq!(first.len(), second.len());
    for (a, b) in first.iter().zip(second.iter()) {
        assert_eq!(a.entries(), b.entries());
    }
}

#[test]
fn later_env_binding_overrides() {
    let doc = "DOCTYPE=JTL\n>>>ENV;\n>>>foo=bar;\n>>>foo=baz;\n>>>BEGIN;\n>e k=\"v\">id>$env:foo;\n>>>END;";
    let env = parse_env(doc).unwrap();
    assert_eq!(env.get("foo").unwrap(), "baz");
    let parsed = parse(doc).unwrap();
    assert_eq!(parsed[0].get("Content").unwrap(), "baz");
}

#[test]
fn env_bindings_on_one_line_are_trimmed() {
    let doc = "DOCTYPE=JTL\n>>>ENV;\n>>> a = 1 ; >>>b=two words;>>>no_equals;\n>>>BEGIN;\n>>>c=3;";
    let env = parse_env(doc).unwrap();
    assert_eq!(env.entries().len(), 2);
    assert_eq!(env.get("a").unwrap(), "1");
    assert_eq!(env.get("b").unwrap(), "two words");
    assert!(!env.contains_key("c"));
    assert!(!env.contains_key("no_equals"));
}

#[test]
fn missing_doctype_in_env_extraction() {
    assert_eq!(parse_env("DOCTYPE=XML\n>>>ENV;\n>>>a=b;").unwrap_err(), ParseError::MissingDoctype);
    assert_eq!(parse("").unwrap_err(), ParseError::MissingDoctype);
}

#[test]
fn doctype_may_stand_anywhere_in_first_line() {
    let parsed = parse("<!-- DOCTYPE=JTL -->\n>>>BEGIN;\n>x a=\"b\">id>text\n").unwrap();
    assert_eq!(parsed.len(), 1);
    assert_eq!(parsed[0].get("Content").unwrap(), "text");
}

#[test]
fn unresolved_reference_stays_literal() {
    let doc = "DOCTYPE=JTL\n>>>BEGIN;\n>e k=\"v\">id>$env:missing;\n>>>END;";
    let parsed = parse(doc).unwrap();
    assert_eq!(parsed[0].get("Content").unwrap(), "$env:missing");
    assert_eq!(parsed[0].get("Contents").unwrap(), "$env:missing");
}

#[test]
fn missing_separator_error() {
    let err = parse("DOCTYPE=JTL\n>>>BEGIN;\n>abcdef;\n").unwrap_err();
    assert_eq!(err, ParseError::MissingSeparator);
    assert_eq!(err.message(), "invalid element format: missing separator");
}

#[test]
fn no_attributes_error() {
    let err = parse("DOCTYPE=JTL\n>>>BEGIN;\n>plain>id>content;\n").unwrap_err();
    assert_eq!(err, ParseError::NoAttributesFound);
    assert_eq!(err.message(), "invalid element format: no attributes found");
}

#[test]
fn malformed_content_errors() {
    let no_content = parse("DOCTYPE=JTL\n>>>BEGIN;\n>a=\"b\">id>\n").unwrap_err();
    assert_eq!(no_content, ParseError::MalformedContent);
    let no_id = parse("DOCTYPE=JTL\n>>>BEGIN;\n>a=\"b\">>content\n").unwrap_err();
    assert_eq!(no_id, ParseError::MalformedContent);
    let one_part = parse("DOCTYPE=JTL\n>>>BEGIN;\n>a=\"b\">id\n").unwrap_err();
    assert_eq!(one_part, ParseError::MalformedContent);
    assert_eq!(one_part.message(), "invalid element format: malformed content");
}

#[test]
fn missing_prefix_error() {
    let err = build_element(&chars("abcdef"), &Vec::new(), &StrMap::new()).unwrap_err();
    assert_eq!(err, ParseError::MissingPrefix);
    assert_eq!(err.message(), "invalid element format: missing '>' prefix");
}

#[test]
fn build_element_with_given_attributes() {
    let mut env = StrMap::new();
    env.insert("v".to_string(), "resolved".to_string());
    let attrs = vec![
        ("KEY".to_string(), "overridden".to_string()),
        ("x".to_string(), "1".to_string()),
        ("x".to_string(), "2".to_string()),
    ];
    let record = build_element(&chars(">anything>the_id>$env:v;"), &attrs, &env).unwrap();
    assert_eq!(record.get("KEY").unwrap(), "the_id");
    assert_eq!(record.get("x").unwrap(), "2");
    assert_eq!(record.get("Content").unwrap(), "resolved");
    assert_eq!(record.entries().len(), 4);
    let none = build_element(&chars(">anything>the_id>c"), &Vec::new(), &env).unwrap_err();
    assert_eq!(none, ParseError::NoAttributesFound);
}

#[test]
fn reserved_attribute_names_are_overwritten() {
    let doc = "DOCTYPE=JTL\n>>>BEGIN;\n>e KEY=\"attr\" Content=\"attr\">real>body;\n";
    let parsed = parse(doc).unwrap();
    assert_eq!(parsed[0].get("KEY").unwrap(), "real");
    assert_eq!(parsed[0].get("Content").unwrap(), "body");
    assert_eq!(parsed[0].entries().len(), 3);
}

#[test]
fn attributes_are_found_in_whole_declaration_tail() {
    let doc = "DOCTYPE=JTL\n>>>BEGIN;\n>e a=\"1\">id>text with b=\"2\" inside;\n";
    let parsed = parse(doc).unwrap();
    assert_eq!(parsed[0].get("a").unwrap(), "1");
    assert_eq!(parsed[0].get("b").unwrap(), "2");
    assert_eq!(parsed[0].get("Content").unwrap(), "text with b=\"2\" inside");
}

#[test]
fn content_keeps_later_separators() {
    let parsed = parse("DOCTYPE=JTL\n>>>BEGIN;\n>e a=\"1\">id>x>y\n").unwrap();
    assert_eq!(parsed[0].get("KEY").unwrap(), "id");
    assert_eq!(parsed[0].get("Content").unwrap(), "x>y");
}

#[test]
fn declarations_after_end_are_ignored() {
    let doc = "DOCTYPE=JTL\n>>>BEGIN;\n>e a=\"1\">id>x;\n>>>END;\n>f b=\"2\">id2>y;\n>>>BEGIN;\n>g c=\"3\">id3>z;\n";
    let parsed = parse(doc).unwrap();
    assert_eq!(parsed.len(), 1);
}

#[test]
fn declarations_outside_sections_are_ignored() {
    let doc = "DOCTYPE=JTL\n>e a=\"1\">id>x;\n>>>ENV;\n>f b=\"2\">id2>y;\n>>>BEGIN;\n>>>late=1;\n";
    assert_eq!(parse(doc).unwrap_err(), ParseError::NoAttributesFound);
    let doc2 = "DOCTYPE=JTL\n>e a=\"1\">id>x;\n>>>ENV;\n>f b=\"2\">id2>y;\n>>>BEGIN;\n";
    assert_eq!(parse(doc2).unwrap().len(), 0);
}

#[test]
fn unterminated_body_is_accepted() {
    let parsed = parse("DOCTYPE=JTL\r\n>>>BEGIN;\r\n>e a=\"1\">id>x;\r\n").unwrap();
    assert_eq!(parsed.len(), 1);
    assert_eq!(parsed[0].get("Content").unwrap(), "x");
}

#[test]
fn length_counts_characters() {
    let parsed = parse("DOCTYPE=JTL\n>>>BEGIN;\n>ée=\"é\">é>é\n");
    assert!(parsed.is_ok());
    let err = parse("DOCTYPE=JTL\n>>>BEGIN;\n>é>é\n").unwrap_err();
    assert_eq!(err, ParseError::ElementTooShort);
}

#[test]
fn later_binding_wins_across_lines() {
    let doc = "DOCTYPE=JTL\n>>>ENV;\n>>>foo=bar;\n/* note */\n>>>other=1;\n\n>>>foo=baz; >>>x=y;\n>>>BEGIN;\n>e k=\"v\">id>$env:foo;\n";
    let env = parse_env(doc).unwrap();
    assert_eq!(env.get("foo").unwrap(), "baz");
    assert_eq!(env.get("other").unwrap(), "1");
    assert_eq!(env.entries().len(), 3);
    assert_eq!(parse(doc).unwrap()[0].get("Content").unwrap(), "baz");
}

#[test]
fn comment_and_blank_lines_change_nothing() {
    let plain = parse(SAMPLE_JTL).unwrap();
    let commented = "DOCTYPE=JTL\n\n/* a\n>>>ENV;\n>//> x\n>>>foo=bar;\n*/ b\n>>>BEGIN;\n   \n>element_id key=\"value\">element_id>$env:foo;\n>//> >y a=\"1\">i>c;\n>>>END;\n/* trailing";
    let parsed = parse(commented).unwrap();
    assert_eq!(parsed.len(), plain.len());
    assert_eq!(parsed[0].entries(), plain[0].entries());
}

#[test]
fn text_after_end_changes_nothing() {
    let base = "DOCTYPE=JTL\n>>>BEGIN;\n>e a=\"1\">id>x;\n";
    let with_tail = "DOCTYPE=JTL\n>>>BEGIN;\n>e a=\"1\">id>x;\n>>>END;\n>f;\n>g b=\"2\">id2>y;\nplain words\n";
    let a = parse(base).unwrap();
    let b = parse(with_tail).unwrap();
    assert_eq!(a.len(), 1);
    assert_eq!(b.len(), 1);
    assert_eq!(a[0].entries(), b[0].entries());
}

#[test]
fn first_failing_declaration_decides_the_error() {
    let doc = "DOCTYPE=JTL\n>>>BEGIN;\n>e a=\"1\">id>x; >ab; >plain>id>c;\n";
    assert_eq!(parse(doc).unwrap_err(), ParseError::ElementTooShort);
    let doc2 = "DOCTYPE=JTL\n>>>BEGIN;\n>e a=\"1\">id>x; >abcdef; >ab;\n";
    assert_eq!(parse(doc2).unwrap_err(), ParseError::MissingSeparator);
}
