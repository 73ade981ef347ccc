use moostache::errors::MoostacheError;
use moostache::template::{Fragment, SectionSkip, Template};

fn frags(template: &Template) -> &Vec<Fragment> {
    template.fragments()
}

fn skips(template: &Template) -> &Vec<SectionSkip> {
    template.skips()
}

#[test]
fn miri_iso_parse_empty() {
    let source = "".to_owned();
    let err = Template::parse(&source).unwrap_err();
    let expected = MoostacheError::ParseErrorNoContent("".to_owned());
    assert_eq!(err, expected);
}

#[test]
fn miri_iso_parse_invalid_escaped_variable() {
    let source = "{{ dfg%jgf }}".to_owned();
    let err = Template::parse(&source).unwrap_err();
    let expected = MoostacheError::ParseErrorInvalidEscapedVariableTag("".to_owned());
    assert_eq!(err, expected);
}

#[test]
fn miri_iso_parse_invalid_escaped_variable_utf8() {
    let source = "{{ dfg🦀jgf }}".to_owned();
    let err = Template::parse(&source).unwrap_err();
    let expected = MoostacheError::ParseErrorInvalidEscapedVariableTag("".to_owned());
    assert_eq!(err, expected);
}

#[test]
fn miri_iso_parse_unclosed_escaped_variable() {
    let source = "{{ dfg.jgf }".to_owned();
    let err = Template::parse(&source).unwrap_err();
    let expected = MoostacheError::ParseErrorInvalidEscapedVariableTag("".to_owned());
    assert_eq!(err, expected);
}

#[test]
fn miri_iso_parse_invalid_unescaped_variable() {
    let source = "{{{ dfg%jgf }}}".to_owned();
    let err = Template::parse(&source).unwrap_err();
    let expected = MoostacheError::ParseErrorInvalidUnescapedVariableTag("".to_owned());
    assert_eq!(err, expected);
}

#[test]
fn miri_iso_parse_invalid_unescaped_variable_utf8() {
    let source = "{{{ dfg🦀jgf }}}".to_owned();
    let err = Template::parse(&source).unwrap_err();
    let expected = MoostacheError::ParseErrorInvalidUnescapedVariableTag("".to_owned());
    assert_eq!(err, expected);
}

#[test]
fn miri_iso_parse_unclosed_unescaped_variable() {
    let source = "{{{ dfg.jgf }}".to_owned();
    let err = Template::parse(&source).unwrap_err();
    let expected = MoostacheError::ParseErrorInvalidUnescapedVariableTag("".to_owned());
    assert_eq!(err, expected);
}

#[test]
fn miri_iso_parse_unclosed_comment() {
    let source = "{{! comment }".to_owned();
    let err = Template::parse(&source).unwrap_err();
    let expected = MoostacheError::ParseErrorInvalidCommentTag("".to_owned());
    assert_eq!(err, expected);
}

#[test]
fn miri_iso_parse_unclosed_comment_utf8() {
    let source = "{{! 🦀 }".to_owned();
    let err = Template::parse(&source).unwrap_err();
    let expected = MoostacheError::ParseErrorInvalidCommentTag("".to_owned());
    assert_eq!(err, expected);
}

#[test]
fn miri_iso_parse_invalid_section_start() {
    let source = "{{# dfg%jgf }}".to_owned();
    let err = Template::parse(&source).unwrap_err();
    let expected = MoostacheError::ParseErrorInvalidSectionStartTag("".to_owned());
    assert_eq!(err, expected);
}

#[test]
fn miri_iso_parse_invalid_section_start_utf8() {
    let source = "{{# dfg🦀jgf }}".to_owned();
    let err = Template::parse(&source).unwrap_err();
    let expected = MoostacheError::ParseErrorInvalidSectionStartTag("".to_owned());
    assert_eq!(err, expected);
}

#[test]
fn miri_iso_parse_unclosed_section_start() {
    let source = "{{# dfg.jgf }".to_owned();
    let err = Template::parse(&source).unwrap_err();
    let expected = MoostacheError::ParseErrorInvalidSectionStartTag("".to_owned());
    assert_eq!(err, expected);
}

#[test]
fn miri_iso_parse_unclosed_section_missing_end() {
    let source = "{{# dfg.jgf }}".to_owned();
    let err = Template::parse(&source).unwrap_err();
    let expected = MoostacheError::ParseErrorUnclosedSectionTags("".to_owned());
    assert_eq!(err, expected);
}

#[test]
fn miri_iso_parse_unclosed_section_mismatched_end() {
    let source = "{{# dfg.jgf }} lol {{/ not.same }}".to_owned();
    let err = Template::parse(&source).unwrap_err();
    let expected = MoostacheError::ParseErrorMismatchedSectionEndTag("".to_owned());
    assert_eq!(err, expected);
}

#[test]
fn miri_iso_parse_unclosed_section_mismatched_end_utf8() {
    let source = "{{# dfg.jgf }} 🦀🦀 {{/ not.same }}".to_owned();
    let err = Template::parse(&source).unwrap_err();
    let expected = MoostacheError::ParseErrorMismatchedSectionEndTag("".to_owned());
    assert_eq!(err, expected);
}

#[test]
fn miri_iso_parse_invalid_inverted_section_start() {
    let source = "{{^ dfg%jgf }}".to_owned();
    let err = Template::parse(&source).unwrap_err();
    let expected = MoostacheError::ParseErrorInvalidInvertedSectionStartTag("".to_owned());
    assert_eq!(err, expected);
}

#[test]
fn miri_iso_parse_invalid_inverted_section_start_utf8() {
    let source = "{{^ dfg🦀jgf }}".to_owned();
    let err = Template::parse(&source).unwrap_err();
    let expected = MoostacheError::ParseErrorInvalidInvertedSectionStartTag("".to_owned());
    assert_eq!(err, expected);
}

#[test]
fn miri_iso_parse_unclosed_inverted_section_start() {
    let source = "{{^ dfg.jgf }".to_owned();
    let err = Template::parse(&source).unwrap_err();
    let expected = MoostacheError::ParseErrorInvalidInvertedSectionStartTag("".to_owned());
    assert_eq!(err, expected);
}

#[test]
fn miri_iso_parse_unclosed_inverted_section_missing_end() {
    let source = "{{^ dfg.jgf }}".to_owned();
    let err = Template::parse(&source).unwrap_err();
    let expected = MoostacheError::ParseErrorUnclosedSectionTags("".to_owned());
    assert_eq!(err, expected);
}

#[test]
fn miri_iso_parse_unclosed_inverted_section_mismatched_end() {
    let source = "{{^ dfg.jgf }} lol {{/ not.same }}".to_owned();
    let err = Template::parse(&source).unwrap_err();
    let expected = MoostacheError::ParseErrorMismatchedSectionEndTag("".to_owned());
    assert_eq!(err, expected);
}

#[test]
fn miri_iso_parse_unclosed_inverted_section_mismatched_end_utf8() {
    let source = "{{^ dfg.jgf }} 🦀🦀 {{/ not.same }}".to_owned();
    let err = Template::parse(&source).unwrap_err();
    let expected = MoostacheError::ParseErrorMismatchedSectionEndTag("".to_owned());
    assert_eq!(err, expected);
}

#[test]
fn miri_iso_parse_invalid_section_end() {
    let source = "{{/ dfg%jgf }}".to_owned();
    let err = Template::parse(&source).unwrap_err();
    let expected = MoostacheError::ParseErrorInvalidSectionEndTag("".to_owned());
    assert_eq!(err, expected);
}

#[test]
fn miri_iso_parse_unclosed_section_end() {
    let source = "{{/ dfg.jgf }".to_owned();
    let err = Template::parse(&source).unwrap_err();
    let expected = MoostacheError::ParseErrorInvalidSectionEndTag("".to_owned());
    assert_eq!(err, expected);
}

#[test]
fn miri_iso_parse_section_end_without_start() {
    let source = "{{/ dfg.jgf }}".to_owned();
    let err = Template::parse(&source).unwrap_err();
    let expected = MoostacheError::ParseErrorMismatchedSectionEndTag("".to_owned());
    assert_eq!(err, expected);
}

#[test]
fn miri_iso_parse_invalid_partial() {
    let source = "{{> dfg\"jgf }}".to_owned();
    let err = Template::parse(&source).unwrap_err();
    let expected = MoostacheError::ParseErrorInvalidPartialTag("".to_owned());
    assert_eq!(err, expected);
}

#[test]
fn miri_iso_parse_invalid_partial_utf8() {
    let source = "{{> dfg🦀jgf }}".to_owned();
    let err = Template::parse(&source).unwrap_err();
    let expected = MoostacheError::ParseErrorInvalidPartialTag("".to_owned());
    assert_eq!(err, expected);
}

#[test]
fn miri_iso_parse_unclosed_partial() {
    let source = "{{> dfg/jgf }".to_owned();
    let err = Template::parse(&source).unwrap_err();
    let expected = MoostacheError::ParseErrorInvalidPartialTag("".to_owned());
    assert_eq!(err, expected);
}

#[test]
fn miri_iso_parse_literal() {
    let source = "hello world";
    let template = Template::parse(&source.to_owned()).expect("template parsed successfully");
    assert_eq!(frags(&template), &vec![Fragment::Literal(source.to_owned())]);
    assert_eq!(skips(&template), &Vec::new());
}

#[test]
fn miri_iso_parse_literal_static() {
    let source = "hello world";
    let template = Template::parse(source).expect("template parsed successfully");
    assert_eq!(frags(&template), &vec![Fragment::Literal(source.to_owned())]);
    assert_eq!(skips(&template), &Vec::new());
}

#[test]
fn miri_iso_parse_literal_utf8() {
    let source = "hello world 🦀";
    let template = Template::parse(&source.to_owned()).expect("template parsed successfully");
    assert_eq!(frags(&template), &vec![Fragment::Literal(source.to_owned())]);
    assert_eq!(skips(&template), &Vec::new());
}

#[test]
fn miri_iso_parse_escaped_var() {
    let source = "{{name}}";
    let template = Template::parse(&source.to_owned()).expect("Fragment parsed successfully");
    assert_eq!(frags(&template), &vec![Fragment::EscapedVariable("name".to_owned())]);
    assert_eq!(skips(&template), &Vec::new());
}

#[test]
fn miri_iso_parse_escaped_var_padded() {
    let source = "{{  name  }}";
    let template = Template::parse(&source.to_owned()).expect("Fragment parsed successfully");
    assert_eq!(frags(&template), &vec![Fragment::EscapedVariable("name".to_owned())]);
    assert_eq!(skips(&template), &Vec::new());
}

#[test]
fn miri_iso_parse_unescaped_var() {
    let source = "{{{name}}}";
    let template = Template::parse(&source.to_owned()).expect("Fragment parsed successfully");
    assert_eq!(frags(&template), &vec![Fragment::UnescapedVariable("name".to_owned())]);
    assert_eq!(skips(&template), &Vec::new());
}

#[test]
fn miri_iso_parse_unescaped_var_padded() {
    let source = "{{{  name  }}}";
    let template = Template::parse(&source.to_owned()).expect("Fragment parsed successfully");
    assert_eq!(frags(&template), &vec![Fragment::UnescapedVariable("name".to_owned())]);
    assert_eq!(skips(&template), &Vec::new());
}

#[test]
fn miri_iso_parse_section() {
    let source = "{{# whatever }} cheese {{/ whatever}}";
    let template = Template::parse(&source.to_owned()).expect("template parsed successfully");
    let expected_frags = vec![
        Fragment::Section("whatever".to_owned()),
        Fragment::Literal(" cheese ".to_owned()),
    ];
    let expected_skips = vec![SectionSkip { nested_sections: 0, nested_fragments: 1 }];
    assert_eq!(frags(&template), &expected_frags);
    assert_eq!(skips(&template), &expected_skips);
}

#[test]
fn miri_iso_parse_section_utf8() {
    let source = "{{# whatever }} 🦀🦀 {{/ whatever}}";
    let template = Template::parse(&source.to_owned()).expect("template parsed successfully");
    let expected_frags = vec![
        Fragment::Section("whatever".to_owned()),
        Fragment::Literal(" 🦀🦀 ".to_owned()),
    ];
    let expected_skips = vec![SectionSkip { nested_sections: 0, nested_fragments: 1 }];
    assert_eq!(frags(&template), &expected_frags);
    assert_eq!(skips(&template), &expected_skips);
}

#[test]
fn miri_iso_parse_partial() {
    let source = "{{>name}}";
    let template = Template::parse(&source.to_owned()).expect("Fragment parsed successfully");
    assert_eq!(frags(&template), &vec![Fragment::Partial("name".to_owned())]);
    assert_eq!(skips(&template), &Vec::new());
}

#[test]
fn miri_iso_parse_partial_padded() {
    let source = "{{>  name  }}";
    let template = Template::parse(&source.to_owned()).expect("Fragment parsed successfully");
    assert_eq!(frags(&template), &vec![Fragment::Partial("name".to_owned())]);
    assert_eq!(skips(&template), &Vec::new());
}

#[test]
fn miri_iso_parse_partial_nested() {
    let source = "{{>name/in/nested/dir}}";
    let template = Template::parse(&source.to_owned()).expect("Fragment parsed successfully");
    assert_eq!(frags(&template), &vec![Fragment::Partial("name/in/nested/dir".to_owned())]);
    assert_eq!(skips(&template), &Vec::new());
}

#[test]
fn miri_iso_parse_partial_nested_padded() {
    let source = "{{>  name/in/nested/dir  }}";
    let template = Template::parse(&source.to_owned()).expect("Fragment parsed successfully");
    assert_eq!(frags(&template), &vec![Fragment::Partial("name/in/nested/dir".to_owned())]);
    assert_eq!(skips(&template), &Vec::new());
}

#[test]
fn miri_iso_parse_v1_features() {
    let source = "prefix {{ escaped }}!";
    let template = Template::parse(&source.to_owned()).expect("template parsed successfully");
    let expected_frags = vec![
        Fragment::Literal("prefix ".to_owned()),
        Fragment::EscapedVariable("escaped".to_owned()),
        Fragment::Literal("!".to_owned()),
    ];
    assert_eq!(frags(&template), &expected_frags);
    assert_eq!(skips(&template), &Vec::new());
}

#[test]
fn miri_iso_parse_v2_features() {
    let source = "{{! comment }}prefix {{ escaped }} {{{ unescaped }}}!";
    let template = Template::parse(&source.to_owned()).expect("template parsed successfully");
    let expected_frags = vec![
        Fragment::Literal("prefix ".to_owned()),
        Fragment::EscapedVariable("escaped".to_owned()),
        Fragment::Literal(" ".to_owned()),
        Fragment::UnescapedVariable("unescaped".to_owned()),
        Fragment::Literal("!".to_owned()),
    ];
    assert_eq!(frags(&template), &expected_frags);
    assert_eq!(skips(&template), &Vec::new());
}

#[test]
fn miri_iso_parse_v3_features() {
    let source = "{{! comment }}prefix {{ escaped }} {{{ unescaped }}} {{# section }} {{ cheese }} {{/ section }}!";
    let template = Template::parse(&source.to_owned()).expect("template parsed successfully");
    let expected_frags = vec![
        Fragment::Literal("prefix ".to_owned()),
        Fragment::EscapedVariable("escaped".to_owned()),
        Fragment::Literal(" ".to_owned()),
        Fragment::UnescapedVariable("unescaped".to_owned()),
        Fragment::Literal(" ".to_owned()),
        Fragment::Section("section".to_owned()),
        Fragment::Literal(" ".to_owned()),
        Fragment::EscapedVariable("cheese".to_owned()),
        Fragment::Literal(" ".to_owned()),
        Fragment::Literal("!".to_owned()),
    ];
    let expected_skips = vec![SectionSkip { nested_fragments: 3, nested_sections: 0 }];
    assert_eq!(frags(&template), &expected_frags);
    assert_eq!(skips(&template), &expected_skips);
}

#[test]
fn miri_iso_parse_v4_features() {
    let source = "{{> nested/partial }}{{! comment }}prefix {{ escaped }} {{{ unescaped }}} {{# section }} {{ cheese }} {{/ section }}{{^section}}no cheese damn{{/section}}!";
    let template = Template::parse(&source.to_owned()).expect("template parsed successfully");
    let expected_frags = vec![
        Fragment::Partial("nested/partial".to_owned()),
        Fragment::Literal("prefix ".to_owned()),
        Fragment::EscapedVariable("escaped".to_owned()),
        Fragment::Literal(" ".to_owned()),
        Fragment::UnescapedVariable("unescaped".to_owned()),
        Fragment::Literal(" ".to_owned()),
        Fragment::Section("section".to_owned()),
        Fragment::Literal(" ".to_owned()),
        Fragment::EscapedVariable("cheese".to_owned()),
        Fragment::Literal(" ".to_owned()),
        Fragment::InvertedSection("section".to_owned()),
        Fragment::Literal("no cheese damn".to_owned()),
        Fragment::Literal("!".to_owned()),
    ];
    let expected_skips = vec![
        SectionSkip { nested_fragments: 3, nested_sections: 0 },
        SectionSkip { nested_fragments: 1, nested_sections: 0 },
    ];
    assert_eq!(frags(&template), &expected_frags);
    assert_eq!(skips(&template), &expected_skips);
}

#[test]
fn miri_iso_parse_v4_features_utf8() {
    let source = "{{> nested/partial }}{{! comment }}prefix {{ escaped }} {{{ unescaped }}} {{# section }} {{ cheese }} {{/ section }}{{^section}}no 🦀🦀 damn{{/section}}!";
    let template = Template::parse(&source.to_owned()).expect("template parsed successfully");
    let expected_frags = vec![
        Fragment::Partial("nested/partial".to_owned()),
        Fragment::Literal("prefix ".to_owned()),
        Fragment::EscapedVariable("escaped".to_owned()),
        Fragment::Literal(" ".to_owned()),
        Fragment::UnescapedVariable("unescaped".to_owned()),
        Fragment::Literal(" ".to_owned()),
        Fragment::Section("section".to_owned()),
        Fragment::Literal(" ".to_owned()),
        Fragment::EscapedVariable("cheese".to_owned()),
        Fragment::Literal(" ".to_owned()),
        Fragment::InvertedSection("section".to_owned()),
        Fragment::Literal("no 🦀🦀 damn".to_owned()),
        Fragment::Literal("!".to_owned()),
    ];
    let expected_skips = vec![
        SectionSkip { nested_fragments: 3, nested_sections: 0 },
        SectionSkip { nested_fragments: 1, nested_sections: 0 },
    ];
    assert_eq!(frags(&template), &expected_frags);
    assert_eq!(skips(&template), &expected_skips);
}

#[test]
fn miri_iso_parse_heavy_section_nesting() {
    let source = "prefix{{#s1}}infix1{{#s1a}}infix2{{#s1aa}}content-1aa{{/s1aa}}{{^s1aa}}nothing-1aa{{/s1aa}}{{#s1ab}}content-1ab{{/s1ab}}{{^s1ab}}nothing-1ab{{/s1ab}}{{/s1a}}{{^s1a}}nothing-1a{{/s1a}}infix3{{#s1b}}content-1b{{/s1b}}{{^s1b}}nothing-1b{{/s1b}}infix4{{/s1}}suffix";
    let template = Template::parse(&source.to_owned()).expect("template parsed successfully");
    let expected_frags = vec![
        Fragment::Literal("prefix".to_owned()),
        Fragment::Section("s1".to_owned()),
        Fragment::Literal("infix1".to_owned()),
        Fragment::Section("s1a".to_owned()),
        Fragment::Literal("infix2".to_owned()),
        Fragment::Section("s1aa".to_owned()),
        Fragment::Literal("content-1aa".to_owned()),
        Fragment::InvertedSection("s1aa".to_owned()),
        Fragment::Literal("nothing-1aa".to_owned()),
        Fragment::Section("s1ab".to_owned()),
        Fragment::Literal("content-1ab".to_owned()),
        Fragment::InvertedSection("s1ab".to_owned()),
        Fragment::Literal("nothing-1ab".to_owned()),
        Fragment::InvertedSection("s1a".to_owned()),
        Fragment::Literal("nothing-1a".to_owned()),
        Fragment::Literal("infix3".to_owned()),
        Fragment::Section("s1b".to_owned()),
        Fragment::Literal("content-1b".to_owned()),
        Fragment::InvertedSection("s1b".to_owned()),
        Fragment::Literal("nothing-1b".to_owned()),
        Fragment::Literal("infix4".to_owned()),
        Fragment::Literal("suffix".to_owned()),
    ];
    let expected_skips = vec![
        SectionSkip { nested_sections: 8, nested_fragments: 19 },
        SectionSkip { nested_sections: 4, nested_fragments: 9 },
        SectionSkip { nested_sections: 0, nested_fragments: 1 },
        SectionSkip { nested_sections: 0, nested_fragments: 1 },
        SectionSkip { nested_sections: 0, nested_fragments: 1 },
        SectionSkip { nested_sections: 0, nested_fragments: 1 },
        SectionSkip { nested_sections: 0, nested_fragments: 1 },
        SectionSkip { nested_sections: 0, nested_fragments: 1 },
        SectionSkip { nested_sections: 0, nested_fragments: 1 },
    ];
    assert_eq!(frags(&template), &expected_frags);
    assert_eq!(skips(&template), &expected_skips);
}

#[test]
fn miri_iso_moostache_error_display_impl() {
    let mut err = MoostacheError::ParseErrorGeneric("".into());
    assert_eq!("error parsing anonymous template", &err.message());
    err = err.set_name("name");
    assert_eq!("error parsing \"name\" template", &err.message());

    err = MoostacheError::ParseErrorNoContent("".into());
    assert_eq!("error parsing anonymous template: empty template", &err.message());
    err = err.set_name("name");
    assert_eq!("error parsing \"name\" template: empty template", &err.message());

    err = MoostacheError::ParseErrorUnclosedSectionTags("".into());
    assert_eq!("error parsing anonymous template: unclosed section tags", &err.message());
    err = err.set_name("name");
    assert_eq!("error parsing \"name\" template: unclosed section tags", &err.message());

    err = MoostacheError::ParseErrorInvalidEscapedVariableTag("".into());
    assert_eq!(
        "error parsing anonymous template: invalid escaped variable tag, expected {{ variable }}",
        &err.message()
    );
    err = err.set_name("name");
    assert_eq!(
        "error parsing \"name\" template: invalid escaped variable tag, expected {{ variable }}",
        &err.message()
    );

    err = MoostacheError::ParseErrorInvalidUnescapedVariableTag("".into());
    assert_eq!(
        "error parsing anonymous template: invalid unescaped variable tag, expected {{{ variable }}}",
        &err.message()
    );
    err = err.set_name("name");
    assert_eq!(
        "error parsing \"name\" template: invalid unescaped variable tag, expected {{{ variable }}}",
        &err.message()
    );

    err = MoostacheError::ParseErrorInvalidSectionEndTag("".into());
    assert_eq!(
        "error parsing anonymous template: invalid section eng tag, expected {{/ section }}",
        &err.message()
    );
    err = err.set_name("name");
    assert_eq!(
        "error parsing \"name\" template: invalid section eng tag, expected {{/ section }}",
        &err.message()
    );

    err = MoostacheError::ParseErrorMismatchedSectionEndTag("".into());
    assert_eq!(
        "error parsing anonymous template: mismatched section eng tag, expected {{# section }} ... {{/ section }}",
        &err.message()
    );
    err = err.set_name("name");
    assert_eq!(
        "error parsing \"name\" template: mismatched section eng tag, expected {{# section }} ... {{/ section }}",
        &err.message()
    );

    err = MoostacheError::ParseErrorInvalidCommentTag("".into());
    assert_eq!(
        "error parsing anonymous template: invalid comment tag, expected {{! comment }}",
        &err.message()
    );
    err = err.set_name("name");
    assert_eq!(
        "error parsing \"name\" template: invalid comment tag, expected {{! comment }}",
        &err.message()
    );

    err = MoostacheError::ParseErrorInvalidSectionStartTag("".into());
    assert_eq!(
        "error parsing anonymous template: invalid section start tag, expected {{# section }}",
        &err.message()
    );
    err = err.set_name("name");
    assert_eq!(
        "error parsing \"name\" template: invalid section start tag, expected {{# section }}",
        &err.message()
    );

    err = MoostacheError::ParseErrorInvalidInvertedSectionStartTag("".into());
    assert_eq!(
        "error parsing anonymous template: invalid inverted section start tag, expected {{^ section }}",
        &err.message()
    );
    err = err.set_name("name");
    assert_eq!(
        "error parsing \"name\" template: invalid inverted section start tag, expected {{^ section }}",
        &err.message()
    );

    err = MoostacheError::ParseErrorInvalidPartialTag("".into());
    assert_eq!(
        "error parsing anonymous template: invalid partial tag, expected {{> partial }}",
        &err.message()
    );
    err = err.set_name("name");
    assert_eq!(
        "error parsing \"name\" template: invalid partial tag, expected {{> partial }}",
        &err.message()
    );

    err = MoostacheError::IoError("".into(), "entity not found".into());
    assert_eq!("error reading anonymous template: entity not found", &err.message());
    err = err.set_name("name");
    assert_eq!("error reading \"name\" template: entity not found", &err.message());

    err = MoostacheError::LoaderErrorTemplateNotFound("".into());
    assert_eq!("loader error: anonymous template not found", &err.message());
    err = err.set_name("name");
    assert_eq!("loader error: \"name\" template not found", &err.message());

    err = MoostacheError::LoaderErrorNonUtf8FilePath("some.file".into());
    assert_eq!("loader error: can't load non-utf8 file path: some.file", &err.message());

    err = MoostacheError::ConfigErrorNonPositiveCacheSize;
    assert_eq!("config error: cache size must be positive", &err.message());

    err = MoostacheError::ConfigErrorInvalidTemplatesDirectory("some.file".into());
    assert_eq!("config error: invalid templates directory: some.file", &err.message());

    err = MoostacheError::ConfigErrorTooManyTemplates;
    assert_eq!("config error: templates in directory exceeds cache size", &err.message());

    err = MoostacheError::SerializationError;
    assert_eq!(
        "serialization error: could not serialize data to serde_json::Value",
        &err.message()
    );
}
