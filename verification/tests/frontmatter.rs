//! YAML, and the frontmatter of Markdown files.
use ara::frontmatter::{
    kebab_to_camel, parse_frontmatter, split_frontmatter, FailureLevel, FrontmatterOptions,
};
use ara::json::{values_equal, Json, JsonObject};
use ara::yaml::{parse_yaml, resolve_plain};

fn value(text: &str) -> Json {
    Json::from_text(text).unwrap()
}

fn is(a: &Json, b: &str) -> bool {
    values_equal(a, &value(b))
}

fn options(source: &str, level: FailureLevel) -> FrontmatterOptions {
    FrontmatterOptions { source: Some(source.into()), level, ..Default::default() }
}

fn parse(content: &str) -> (Json, String) {
    let result = parse_frontmatter(content, &options("tests:frontmatter", FailureLevel::Off)).unwrap();
    (Json::Object(result.frontmatter), result.body)
}

fn yaml(source: &str) -> Json {
    parse_yaml(source).unwrap()
}

#[test]
fn parses_scalars_lists_blocks_and_nesting() {
    let (fm, body) = parse("---\nname: test\nenabled: true\n---\nBody content");
    assert!(is(&fm, r#"{"name": "test", "enabled": true}"#));
    assert_eq!(body, "Body content");
    assert!(is(
        &parse("---\ntags:\n  - javascript\n  - typescript\n  - react\n---\nBody content").0,
        r#"{"tags": ["javascript", "typescript", "react"]}"#
    ));
    assert!(is(
        &parse(
            "---\ndescription: |\n  This is a multi-line\n  description block\n  with several lines\n---\nBody content"
        )
        .0,
        r#"{"description": "This is a multi-line\ndescription block\nwith several lines\n"}"#
    ));
    assert!(is(
        &parse("---\nconfig:\n  server:\n    port: 3000\n    host: localhost\n  database:\n    name: mydb\n---\nBody content").0,
        r#"{"config": {"server": {"port": 3000, "host": "localhost"}, "database": {"name": "mydb"}}}"#
    ));
}

#[test]
fn mixed_missing_empty_and_kebab_keys() {
    let mixed = "---\nname: complex-test\nversion: 1.0.0\ntags:\n  - prod\n  - critical\nmetadata:\n  author: tester\n  created: 2024-01-01\ndescription: |\n  Multi-line description\n  with formatting\n---\nBody content";
    assert!(is(
        &parse(mixed).0,
        r#"{"name": "complex-test", "version": "1.0.0", "tags": ["prod", "critical"],
            "metadata": {"author": "tester", "created": "2024-01-01"},
            "description": "Multi-line description\nwith formatting\n"}"#
    ));
    let (fm, body) = parse("Just body content");
    assert!(is(&fm, "{}"));
    assert_eq!(body, "Just body content");
    let (fm, body) = parse("---\n---\nBody content");
    assert!(is(&fm, "{}"));
    assert_eq!(body, "Body content");
    assert!(is(
        &parse("---\nthinking-level: medium\noutput-schema: json\nnested-field:\n  inner-key: value\n---\nBody content")
            .0,
        r#"{"thinkingLevel": "medium", "outputSchema": "json", "nestedField": {"innerKey": "value"}}"#
    ));
}

#[test]
fn unrecoverable_yaml_falls_back_with_a_warning() {
    let (fm, body) = parse("---\ninvalid: [unclosed array\n---\nBody content");
    assert!(is(&fm, r#"{"invalid": "[unclosed array"}"#));
    assert_eq!(body, "Body content");
    let broken = FrontmatterOptions { source: Some("broken.md".into()), ..Default::default() };
    let result = parse_frontmatter("---\ninvalid: [unclosed array\n---\nBody content", &broken).unwrap();
    assert!(is(&Json::Object(result.frontmatter), r#"{"invalid": "[unclosed array"}"#));
    assert!(result.warning.unwrap().starts_with("Failed to parse YAML frontmatter (broken.md): "));
    let fatal = FrontmatterOptions { level: FailureLevel::Fatal, ..broken };
    assert!(parse_frontmatter("---\ninvalid: [unclosed array\n---\nx", &fatal).is_err());
}

#[test]
fn colon_space_descriptions_are_repaired_without_warning() {
    let content = "---\nname: tool-prompt-optimization\ndescription: Optimize tool prompts. Two halves: measure schema overlap; keep scar tissue.\nenabled: true\n---\nSkill body";
    let result = parse_frontmatter(
        content,
        &FrontmatterOptions { source: Some("bad-skill/SKILL.md".into()), ..Default::default() },
    )
    .unwrap();
    assert!(is(
        &Json::Object(result.frontmatter),
        r#"{"name": "tool-prompt-optimization",
            "description": "Optimize tool prompts. Two halves: measure schema overlap; keep scar tissue.",
            "enabled": true}"#
    ));
    assert_eq!(result.body, "Skill body");
    assert_eq!(result.warning, None);
}

#[test]
fn fallback_reparses_each_value() {
    let content = "---\ncondition: \"(?i)pre.existing\"\nscope: \"text\",\"thinking\"\nenabled: true\n---\nBody";
    let result =
        parse_frontmatter(content, &FrontmatterOptions { source: Some("rule.md".into()), ..Default::default() })
            .unwrap();
    assert_eq!(result.frontmatter.get("condition"), Some(&Json::String("(?i)pre.existing".into())));
    assert_eq!(result.frontmatter.get("enabled"), Some(&Json::Bool(true)));
    assert_eq!(result.frontmatter.get("scope"), Some(&Json::String("\"text\",\"thinking\"".into())));
    assert_eq!(result.body, "Body");
    assert!(result.warning.is_some());
}

#[test]
fn crlf_html_comments_and_tabs_are_repaired() {
    let content = "<!-- lead -->---\r\nname: x\r\n\tdescription: y\r\n---\r\nbody <!-- hidden --> text\r\n";
    let (fm, body) = parse(content);
    assert_eq!(fm.get("name"), Some(&Json::String("x".into())));
    assert_eq!(body, "body  text");
    let strict = FrontmatterOptions { repair: false, level: FailureLevel::Off, ..Default::default() };
    let result =
        parse_frontmatter("---\nkebab-key: 1\n---\nb", &FrontmatterOptions { raw_keys: true, ..strict }).unwrap();
    assert!(is(result.frontmatter.get("kebab-key").unwrap(), "1"));
}

#[test]
fn deep_yaml_nesting_does_not_overflow() {
    let content = format!("---\nname: x\ndescription: d\na:\n{}x\n---\nbody", "- ".repeat(30_000));
    let parsed =
        parse_frontmatter(&content, &FrontmatterOptions { level: FailureLevel::Off, ..Default::default() }).unwrap();
    assert_eq!(parsed.frontmatter.get("name"), Some(&Json::String("x".into())));
    assert_eq!(parsed.frontmatter.get("description"), Some(&Json::String("d".into())));
    assert_eq!(parsed.body, "body");
    assert!(parse_yaml(&format!("{}x", "- ".repeat(300))).is_err());
}

#[test]
fn review_parity_details() {
    // ASCII `\w`: a non-ASCII key is not a fallback line.
    let (fm, _) = parse("---\ncafé: a: b\nbad: [\nok: 1\n---\nx");
    assert!(is(&fm, r#"{"bad": "[", "ok": 1}"#));
    // `<<` with a scalar is an ordinary key.
    assert!(is(&parse("---\n<<: 5\n---\n").0, r#"{"<<": 5}"#));
    // Integer-like keys first.
    let (fm, _) = parse("---\n2: two\nname: n\n1: one\n---\n");
    match fm {
        Json::Object(o) => {
            assert_eq!(o.entries.into_iter().map(|(k, _)| k).collect::<Vec<_>>(), ["1", "2", "name"])
        }
        other => panic!("{other:?}"),
    }
    // Inline source text: 63 UTF-16 units and an ellipsis.
    let content = format!("---\ninvalid: [x\n---\n{}", "y".repeat(80));
    let warning = parse_frontmatter(&content, &FrontmatterOptions::default()).unwrap().warning.unwrap();
    let inline = warning.split("(Inline '").nth(1).unwrap().split("'):").next().unwrap();
    assert_eq!(inline.encode_utf16().count(), 64);
    assert!(inline.ends_with('…'));
}

#[test]
fn core_schema_resolution() {
    assert!(is(
        &yaml("a: Null\nb: NULL\nc: ~\nd:\ne: null"),
        r#"{"a": null, "b": null, "c": null, "d": null, "e": null}"#
    ));
    assert!(is(&yaml("a: 1\na: 2"), r#"{"a": 2}"#));
    assert!(is(&yaml("a: !!str 1\nb: !!int '7'\nc: ! 3"), r#"{"a": "1", "b": "7", "c": "3"}"#));
    assert!(is(
        &yaml("base: &b {x: 1}\nm:\n  <<: *b\n  y: 2"),
        r#"{"base": {"x": 1}, "m": {"x": 1, "y": 2}}"#
    ));
    let n = yaml(
        "big: 12345678901234567890\nf: 1e3\nj: 0x1F\nk: 0o17\nl: +5\nm: 1.\nn: .5\no: 1_000\ng: .inf\ni: .NaN",
    );
    let as_float = |key: &str| match n.get(key) {
        Some(Json::Number(x)) => {
            ara::number::number_to_string(x).replace('+', "").parse::<f64>().unwrap()
        }
        other => panic!("{other:?}"),
    };
    assert_eq!(as_float("big"), 12345678901234567000.0);
    for (key, want) in [("f", "1000"), ("j", "31"), ("k", "15"), ("l", "5"), ("m", "1"), ("n", "0.5"), ("o", "\"1_000\"")]
    {
        assert!(is(n.get(key).unwrap(), want), "{key}");
    }
    // Non-finite: NaN is null (falsy), Infinity a truthy number.
    assert_eq!(as_float("g"), f64::MAX);
    assert!(is(n.get("i").unwrap(), "null"));
    assert!(is(&yaml("? [a, b]\n: c\n1: x\ntrue: y"), r#"{"a,b": "c", "1": "x", "true": "y"}"#));
    assert!(is(&yaml("- a\n- b"), r#"["a", "b"]"#));
    assert!(is(&yaml("a: 1\n---\nb: 2"), r#"[{"a": 1}, {"b": 2}]"#));
    assert!(parse_yaml("a: [1, 2\n").is_err());
    assert!(is(
        &yaml("t: yes\nu: on\nv: 2024-01-01\nw: 0b101"),
        r#"{"t": "yes", "u": "on", "v": "2024-01-01", "w": "0b101"}"#
    ));
}

#[test]
fn plain_scalars() {
    assert!(is(&resolve_plain("true"), "true"));
    assert!(is(&resolve_plain("-12"), "-12"));
    assert!(is(&resolve_plain("1.25"), "1.25"));
    assert!(is(&resolve_plain("tRue"), "\"tRue\""));
}

#[test]
fn keys_and_parts() {
    assert_eq!(kebab_to_camel("a-b-c1"), "aBC1");
    let none = split_frontmatter("no frontmatter", false, false);
    assert_eq!((none.metadata, none.body.as_str()), (None, "no frontmatter"));
    let some = split_frontmatter("---\na: 1\n---\nb", false, false);
    assert_eq!((some.metadata.as_deref().map(|m| m.trim()), some.body.as_str()), (Some("a: 1"), "b"));
}

#[test]
fn fallback_fields_stay_below_read_ones() {
    let mut fallback = JsonObject::new();
    fallback.insert("name".into(), Json::String("given".into()));
    fallback.insert("kind".into(), Json::String("k".into()));
    let o = FrontmatterOptions { fallback, ..Default::default() };
    let read = parse_frontmatter("---\nname: read\n---\n", &o).unwrap();
    assert!(is(&Json::Object(read.frontmatter), r#"{"name": "read", "kind": "k"}"#));
}
