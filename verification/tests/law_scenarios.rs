use moostache::loader::HashMapLoader;
use moostache::template::Template;
use moostache::value::Value;

fn text(v: &str) -> Value {
    Value::Str(v.to_string())
}

fn with_x(v: Value) -> Value {
    Value::Object(vec![("x".to_string(), v)])
}

#[test]
fn escaping_equivalence_concrete() {
    let escaped = Template::parse("{{ x }}").unwrap();
    let raw = Template::parse("{{{ x }}}").unwrap();
    let left = escaped
        .render_no_partials_to_string(&with_x(text("a&b<c>d\"e'f")))
        .unwrap();
    let right = raw
        .render_no_partials_to_string(&with_x(text("a&amp;b&lt;c&gt;d&quot;e&#x27;f")))
        .unwrap();
    assert_eq!(left, right);
    assert_eq!(left, "a&amp;b&lt;c&gt;d&quot;e&#x27;f");
}

#[test]
fn inverted_named_section_over_each_falsy_value() {
    let template = Template::parse("{{^x}}B{{/x}}").unwrap();
    let falsy = vec![
        Value::Null,
        Value::Bool(false),
        Value::Number("0".to_string()),
        Value::Number("0.0".to_string()),
        text(""),
        Value::Array(vec![]),
        Value::Object(vec![]),
    ];
    for v in falsy {
        let out = template.render_no_partials_to_string(&with_x(v)).unwrap();
        assert_eq!(out, "B");
    }
}

#[test]
fn array_section_concatenates_in_order() {
    let template = Template::parse("{{#xs}}{{.}}{{/xs}}").unwrap();
    let data = Value::Object(vec![(
        "xs".to_string(),
        Value::Array(vec![text("v1"), text("v2"), text("v3")]),
    )]);
    let whole = template.render_no_partials_to_string(&data).unwrap();
    let each = Template::parse("{{.}}").unwrap();
    let mut pieces = String::new();
    for v in ["v1", "v2", "v3"] {
        pieces.push_str(&each.render_no_partials_to_string(&text(v)).unwrap());
    }
    assert_eq!(whole, pieces);
    assert_eq!(whole, "v1v2v3");
}

#[test]
fn falsy_section_is_skipped_over() {
    let template = Template::parse("a{{#x}}{{#y}}z{{/y}}{{/x}}b").unwrap();
    let out = template
        .render_no_partials_to_string(&with_x(Value::Bool(false)))
        .unwrap();
    assert_eq!(out, "ab");
}

#[test]
fn partial_renders_like_its_template() {
    let pairs = vec![("p".to_string(), "hi {{ x }}".to_string())];
    let loader = HashMapLoader::from_pairs(pairs).unwrap();
    let data = with_x(text("there"));
    let via_partial = Template::parse("{{>p}}")
        .unwrap()
        .render_to_string(&loader, &data)
        .unwrap();
    let direct = Template::parse("hi {{ x }}")
        .unwrap()
        .render_to_string(&loader, &data)
        .unwrap();
    assert_eq!(via_partial, direct);
    assert_eq!(via_partial, "hi there");
}

#[test]
fn literal_source_renders_to_itself() {
    let source = "no tags here, just { braces } and text";
    let template = Template::parse(source).unwrap();
    assert_eq!(template.fragments().len(), 1);
    assert!(template.skips().is_empty());
    let out = template.render_no_partials_to_string(&Value::Null).unwrap();
    assert_eq!(out, source);
}
