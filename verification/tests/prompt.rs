//! Templates, their values and the normal form of prompts.
use ara::js::{
    add, compare, entries, json_stringify, number, parse_int, strict_eq, to_number, to_string, truthy, utf16_len,
    JsNumber,
};
use ara::json::{values_equal, Json, JsonObject, Number};
use ara::number::number_to_string;
use ara::prompt::{builtin_engine, compile, render, render_with};
use ara::prompt_format::{FormatOptions, RenderPhase};
use ara::template::{escape_expression, path_parts, CustomHelper, Engine, Helper, HelperCall, HelperStep, Output, Part};
use ara::template_parse::{strip_standalone, TemplateError, MAX_NESTING};
use std::cmp::Ordering;

const DEFAULT: FormatOptions =
    FormatOptions { render_phase: RenderPhase::PostRender, replace_ascii_symbols: false, normalize_rfc2119: false };
const FULL: FormatOptions =
    FormatOptions { render_phase: RenderPhase::PreRender, replace_ascii_symbols: true, normalize_rfc2119: true };
const PRE: FormatOptions = FormatOptions { render_phase: RenderPhase::PreRender, ..DEFAULT };
const POST: FormatOptions = DEFAULT;
const PRE_ASCII: FormatOptions = FormatOptions { replace_ascii_symbols: true, ..PRE };

fn value(text: &str) -> Json {
    Json::from_text(text).unwrap()
}

fn object(text: &str) -> JsonObject {
    match value(text) {
        Json::Object(o) => o,
        other => panic!("{other:?}"),
    }
}

/// A helper made of two functions: the parts that it renders, and what it makes of their texts.
struct Made {
    parts: fn(&HelperCall) -> Vec<Part>,
    answer: fn(&HelperCall, &Vec<String>) -> Result<Output, TemplateError>,
}

impl CustomHelper for Made {
    fn step(&self, h: &HelperCall, seen: &Vec<Result<String, TemplateError>>) -> Result<HelperStep, TemplateError> {
        let mut texts = vec![];
        for outcome in seen {
            match outcome {
                Ok(t) => texts.push(t.clone()),
                Err(e) => return Err(TemplateError(e.0.clone())),
            }
        }
        match (self.parts)(h).into_iter().nth(texts.len()) {
            Some(part) => Ok(HelperStep::Render(part)),
            None => (self.answer)(h, &texts).map(HelperStep::Done),
        }
    }
}

/// A helper that renders nothing.
fn plain(answer: fn(&HelperCall, &Vec<String>) -> Result<Output, TemplateError>) -> Helper {
    Helper::Custom(Box::new(Made { parts: |_| vec![], answer }))
}

fn told(text: String) -> Result<Output, TemplateError> {
    Ok(Output::Value(Json::String(text)))
}

// ------------------------------------------------------------------ templates

#[test]
fn hash_arguments_and_helper_subexpressions() {
    let mut engine = Engine::new();
    engine.register_helper("eq", plain(|h, _| Ok(Output::Value(Json::Bool(values_equal(&h.arg(0), &h.arg(1)))))));
    engine.register_helper(
        "label",
        plain(|h, _| {
            let prefix = match h.hash.get("prefix") {
                Some(Json::String(s)) => s.clone(),
                _ => String::new(),
            };
            told(format!("{prefix}:{}", h.arg(0).text()))
        }),
    );
    let out = engine
        .render(r#"{{label (eq left right) prefix="same"}}"#, &value(r#"{"left": 3, "right": 3}"#))
        .unwrap();
    assert_eq!(out, "same:true");
}

#[test]
fn block_helpers_get_fn_inverse_and_hash() {
    let mut engine = Engine::new();
    let choose = Made {
        parts: |h| {
            let chosen = match h.hash.get("expected") {
                Some(v) => values_equal(v, &h.arg(0)),
                None => false,
            };
            vec![Part { inverse: !chosen, context: h.this().clone() }]
        },
        answer: |_, rendered| told(rendered[0].clone()),
    };
    engine.register_helper("choose", Helper::Custom(Box::new(choose)));
    let source = r#"{{#choose value expected="yes"}}Y{{else}}N{{/choose}}"#;
    assert_eq!(engine.render(source, &value(r#"{"value": "yes"}"#)).unwrap(), "Y");
    assert_eq!(engine.render(source, &value(r#"{"value": "no"}"#)).unwrap(), "N");
}

/// Renders its block, then what follows `else`, but only where the block says `more`; what fails
/// is told as a text.
struct Curious;

impl CustomHelper for Curious {
    fn step(&self, h: &HelperCall, seen: &Vec<Result<String, TemplateError>>) -> Result<HelperStep, TemplateError> {
        let part = |inverse| Ok(HelperStep::Render(Part { inverse, context: h.this().clone() }));
        let done = |s: String| Ok(HelperStep::Done(Output::Value(Json::String(s))));
        match seen.as_slice() {
            [] => part(false),
            [Ok(t)] if t == "more" => part(true),
            [Ok(t)] => done(t.clone()),
            [Ok(_), Ok(t)] => done(format!("more:{t}")),
            [.., Err(e)] => done(format!("failed:{}", e.0)),
            _ => Err(TemplateError("lost".into())),
        }
    }
}

#[test]
fn helpers_choose_parts_by_what_they_saw() {
    let mut engine = Engine::new();
    engine.register_helper("peek", Helper::Custom(Box::new(Curious)));
    let source = "{{#peek}}{{a}}{{else}}other{{/peek}}";
    assert_eq!(engine.render(source, &value(r#"{"a": "more"}"#)).unwrap(), "more:other");
    assert_eq!(engine.render(source, &value(r#"{"a": "less"}"#)).unwrap(), "less");
    let out = engine.render("{{#peek}}{{missing 1}}{{/peek}}", &value("{}")).unwrap();
    assert_eq!(out, "failed:Missing helper: &quot;missing&quot;".replace("&quot;", "\""));
}

#[test]
fn escapes_exact_entity_set_triple_stache_and_safe_string() {
    let mut engine = Engine::new();
    engine.register_helper(
        "safe",
        plain(|h, _| match h.arg(0) {
            Json::String(s) => Ok(Output::Safe(s)),
            _ => Ok(Output::Safe(String::new())),
        }),
    );
    let context = value(r#"{"value": "&<>\"'`="}"#);
    let out =
        engine.render("{{! short}}{{!-- long --}}{{value}}|{{{value}}}|{{safe value}}", &context).unwrap();
    assert_eq!(out, "&amp;&lt;&gt;&quot;&#x27;&#x60;&#x3D;|&<>\"'`=|&<>\"'`=");
    assert_eq!(engine.render("A\n{{!--\nlong\n--}}\nB", &value("{}")).unwrap(), "A\nB");
}

#[test]
fn helpers_win_over_properties_and_missing_paths_render_empty() {
    let mut engine = Engine::new();
    engine.register_helper("name", plain(|_, _| told("helper".to_string())));
    let out = engine.render("{{name}}/{{missing.path}}", &value(r#"{"name": "property"}"#)).unwrap();
    assert_eq!(out, "helper/");
}

#[test]
fn helpers_of_the_host_may_fail_and_render_often() {
    let mut engine = Engine::new();
    engine.register_helper("fails", plain(|h, _| Err(TemplateError(format!("{} failed", h.name)))));
    assert_eq!(engine.render("a{{fails}}", &value("{}")).unwrap_err().0, "fails failed");
    let both = Made {
        parts: |h| {
            vec![
                Part { inverse: true, context: h.arg(0) },
                Part { inverse: false, context: h.this().clone() },
                Part { inverse: false, context: h.arg(0) },
            ]
        },
        answer: |_, rendered| told(rendered.join("|")),
    };
    engine.register_helper("both", Helper::Custom(Box::new(both)));
    let context = value(r#"{"n": 1, "inner": {"n": 2}}"#);
    assert_eq!(engine.render("{{#both inner}}b{{n}}{{else}}i{{n}}{{/both}}", &context).unwrap(), "i2|b1|b2");
}

#[test]
fn resolves_dotted_bracket_this_parent_root_and_iteration_paths() {
    let engine = Engine::new();
    let source = "{{user.name}}/{{user.[display name]}}/{{[literal.key]}}|{{#each groups}}{{@index}}:{{#each items}}{{../name}}/{{@root.title}}/{{@index}}/{{@last}}={{this}};{{/each}}{{/each}}";
    let context = value(
        r#"{"user": {"name": "Ada", "display name": "A"}, "literal.key": "L", "title": "R",
            "groups": [{"name": "G", "items": [0, false, ""]}]}"#,
    );
    assert_eq!(engine.render(source, &context).unwrap(), "Ada/A/L|0:G/R/0/false=0;G/R/1/false=false;G/R/2/true=;");
}

#[test]
fn handlebars_falsy_rules_while_each_visits_falsy_entries() {
    let engine = Engine::new();
    let source = "{{#if zero}}bad{{else}}zero{{/if}}|{{#if empty}}bad{{else}}empty{{/if}}|{{#unless zero}}unless{{/unless}}|{{#each values}}[{{this}}]{{else}}none{{/each}}|{{#each object}}{{@key}}={{this}}/{{@last}};{{/each}}|{{#each missing}}bad{{else}}none{{/each}}";
    let context = value(r#"{"zero": 0, "empty": [], "values": [0, false, ""], "object": {"a": 1, "b": 2}}"#);
    assert_eq!(engine.render(source, &context).unwrap(), "zero|empty|unless|[0][false][]|a=1/false;b=2/true;|none");
}

#[test]
fn escaped_entities() {
    assert_eq!(escape_expression("&<>\"'`="), "&amp;&lt;&gt;&quot;&#x27;&#x60;&#x3D;");
}

#[test]
fn triple_braces_behind_a_brace() {
    assert_eq!(render("{{#if a}}{ {{b}}}{{/if}}", &value(r#"{"a": true, "b": "v"}"#)).unwrap(), "{ v}");
    assert!(compile("Hello {{name}} {{#if x}}yes{{/if}}").is_ok());
    assert!(compile("{{#if x}}").is_err());
}

#[test]
fn join_helper() {
    let files = value(r#"{"files": ["a.ts", "b.ts"]}"#);
    assert_eq!(render(r#"{{join files "\n"}}"#, &files).unwrap(), "a.ts\nb.ts");
    assert_eq!(render(r#"{{join files "\t"}}"#, &files).unwrap(), "a.ts\tb.ts");
    assert_eq!(render("{{join files}}", &value(r#"{"files": ["a", "b"]}"#)).unwrap(), "a, b");
    assert_eq!(render("{{join files}}", &value(r#"{"files": "not-an-array"}"#)).unwrap(), "");
}

#[test]
fn else_if_chain_closes_once() {
    let engine = Engine::new();
    let source = "{{#if a}}A{{else if b}}B{{else}}C{{/if}}";
    assert_eq!(engine.render(source, &value(r#"{"a": true}"#)).unwrap(), "A");
    assert_eq!(engine.render(source, &value(r#"{"b": true}"#)).unwrap(), "B");
    assert_eq!(engine.render(source, &value("{}")).unwrap(), "C");
}

#[test]
fn path_parts_split_dots_slashes_and_brackets() {
    assert_eq!(path_parts("user.[display name]"), ["user", "display name"]);
    assert_eq!(path_parts("[literal.key]"), ["literal.key"]);
    assert_eq!(path_parts("a/b.c"), ["a", "b", "c"]);
}

#[test]
fn standalone_lines_lose_their_newline() {
    assert_eq!(strip_standalone("a\n  {{#if x}}  \nb\n{{/if}}\nc"), "a\n{{#if x}}b\n{{/if}}c");
}

#[test]
fn else_if_chains() {
    let e = Engine::new();
    let t = "{{#if a}}A{{else if b}}B{{else}}C{{/if}}";
    assert_eq!(e.render(t, &value(r#"{"a": true}"#)).unwrap(), "A");
    assert_eq!(e.render(t, &value(r#"{"b": true}"#)).unwrap(), "B");
    assert_eq!(e.render(t, &value("{}")).unwrap(), "C");
    assert_eq!(e.render("{{^if a}}no{{else}}yes{{/if}}", &value(r#"{"a": true}"#)).unwrap(), "yes");
    assert!(e.render("{{#if a}}x{{/each}}", &value("{}")).unwrap_err().0.starts_with("Parse error: mismatched"));
    assert_eq!(e.render("{{#if a}}x", &value("{}")).unwrap_err().0, "Parse error: unclosed block if");
}

#[test]
fn each_over_a_large_context_is_linear() {
    let mut items: Vec<Json> = Vec::new();
    for i in 0..20_000 {
        let mut o = JsonObject::new();
        o.insert("name".into(), Json::String(format!("n{i}")));
        items.push(Json::Object(o));
    }
    let mut context = JsonObject::new();
    context.insert("items".into(), Json::Array(items));
    context.insert("x".into(), Json::String("y".into()));
    let context = Json::Object(context);
    let start = std::time::Instant::now();
    let out = Engine::new().render("{{#each items}}- {{name}}\n{{/each}}", &context).unwrap();
    assert_eq!(out.lines().count(), 20_000);
    let lookups = "{{x}}".repeat(500);
    assert_eq!(Engine::new().render(&lookups, &context).unwrap().len(), 500);
    assert!(start.elapsed() < std::time::Duration::from_secs(10), "took {:?}", start.elapsed());
}

#[test]
fn deep_nesting_fails_cleanly() {
    let nest = |n: usize| format!("{}x{}", "{{#if a}}".repeat(n), "{{/if}}".repeat(n));
    let engine = Engine::new();
    let yes = value(r#"{"a": true}"#);
    let ok = engine.render(&nest(MAX_NESTING), &yes);
    let too_deep = engine.render(&nest(2000), &yes);
    let deep_subexpr = format!("{{{{lookup {}a{} 0}}}}", "(lookup ".repeat(5000), " 0)".repeat(5000));
    let subexpr = engine.render(&deep_subexpr, &value("{}"));
    assert_eq!(ok.unwrap(), "x");
    assert_eq!(too_deep.unwrap_err().0, "Template nesting exceeds 100 levels");
    assert_eq!(subexpr.unwrap_err().0, "Template nesting exceeds 100 levels");
}

#[test]
fn integer_like_keys_enumerate_first() {
    let out = render(
        "{{#each m}}{{@key}}={{this}};{{/each}}|{{jsonStringify m}}",
        &value(r#"{"m": {"b": 1, "10": 2}}"#),
    );
    assert_eq!(out.unwrap(), r#"10=2;b=1;|{"10":2,"b":1}"#);
}

#[test]
fn non_finite_and_exponent_numbers() {
    let out = render(
        "{{sub s 1}}|{{add big big}}|{{a}}|{{b}}",
        &value(r#"{"s": "abc", "big": 1e308, "a": 1e21, "b": 1e-7}"#),
    );
    assert_eq!(out.unwrap(), "NaN|Infinity|1e+21|1e-7");
}

#[test]
fn standalone_lines_use_js_whitespace() {
    let engine = Engine::new();
    let ctx = value(r#"{"x": true}"#);
    assert_eq!(engine.render("\u{FEFF}{{#if x}}\nA\n{{/if}}\nB", &ctx).unwrap(), "A\nB");
    assert_eq!(engine.render("\u{85}{{#if x}}\nA\n{{/if}}\nB", &ctx).unwrap(), "\u{85}\nA\nB");
    assert_eq!(engine.render("{{elseé}}\nx", &ctx).unwrap(), "x");
}

#[test]
fn partials_render_with_builtins_only() {
    let mut shared = builtin_engine();
    shared.register_partial("review_p", "[{{join xs}}]");
    shared.register_partial("review_q", "<{{> review_p}}>");
    let ctx = value(r#"{"xs": [1, 2]}"#);
    assert_eq!(render_with(&shared, "{{> review_p}}", &ctx).unwrap_err().0, "Missing helper: \"join\"");
    assert_eq!(
        render_with(&shared, "{{> review_q}}", &ctx).unwrap_err().0,
        "The partial review_p could not be found"
    );
    let mut engine = Engine::new();
    engine.register_partial("row", "{{#each xs}}{{this}};{{/each}}{{k}}");
    assert_eq!(engine.render("{{> row k=\"!\"}}", &ctx).unwrap(), "1;2;!");
    assert_eq!(engine.render("{{> row items}}", &value(r#"{"items": ["a"]}"#)).unwrap(), "");
}

#[test]
fn documented_error_paths() {
    let engine = Engine::new();
    assert_eq!(
        engine.render("{{#if a}}A{{else if b}}B{{/if}}{{/if}}", &value(r#"{"b": true}"#)).unwrap_err().0,
        "Parse error: mismatched /if"
    );
    assert!(render("{{#list xs join=5}}{{this}}{{/list}}", &value(r#"{"xs": [1]}"#)).is_err());
    assert!(render("{{#table xs headers=5}}{{this}}{{/table}}", &value(r#"{"xs": [1]}"#)).is_err());
}

// ------------------------------------------------------------------ values

#[test]
fn js_semantics() {
    let is_nan = |text: &str| matches!(to_number(&value(text)), JsNumber::Nan);
    let is = |text: &str, want: &str| strict_eq(&number(to_number(&value(text))), &value(want));
    assert!(!truthy(&value("0")) && !truthy(&value("\"\"")) && truthy(&value("[]")) && truthy(&value("{}")));
    assert_eq!(to_string(&value(r#"[1, null, "a", [2, 3]]"#)), "1,,a,2,3");
    assert_eq!(to_string(&value("null")), "undefined");
    assert!(is_nan("null") && is("[null]", "0.0"));
    assert!(is(r#"[" 7 "]"#, "7.0"));
    assert!(is("\"0x1F\"", "31.0"));
    assert!(matches!(to_number(&value("\"-Infinity\"")), JsNumber::NegInfinity));
    assert!(is_nan("\"inf\"") && is_nan("\"1e\""));
    assert!(is("\".5e1\"", "5.0"));
    assert_eq!(to_string(&value("2.0")), "2");
    assert_eq!(to_string(&value("1.5")), "1.5");
    for (f, text) in [
        ("1e21", "1e+21"),
        ("1e-7", "1e-7"),
        ("1.5e-7", "1.5e-7"),
        ("0.000001", "0.000001"),
        ("-0.5", "-0.5"),
        ("1.2345e25", "1.2345e+25"),
        ("0.30000000000000004", "0.30000000000000004"),
    ] {
        match value(f) {
            Json::Number(n) => assert_eq!(number_to_string(&n), text),
            other => panic!("{other:?}"),
        }
    }
    assert_eq!(number_to_string(&Number::Float("123456789012345680000.0".into())), "123456789012345680000");
    assert_eq!(number(JsNumber::Nan), value("\"NaN\""));
    let map = object(r#"{"b": 1, "10": 2, "2": 3, "01": 4}"#);
    assert_eq!(entries(&map).into_iter().map(|(k, _)| k).collect::<Vec<_>>(), ["2", "10", "b", "01"]);
    assert_eq!(json_stringify(&value(r#"{"a": [1, 2.0, "x"], "b": null}"#)), r#"{"a":[1,2,"x"],"b":null}"#);
    assert!(strict_eq(&value("1"), &value("1.0")) && !strict_eq(&value("[]"), &value("[]")));
    assert_eq!(compare(&value("\"a\""), &value("\"b\"")), Some(Ordering::Less));
    assert_eq!(compare(&value("1"), &value("\"2\"")), Some(Ordering::Less));
    assert_eq!(compare(&value("\"x\""), &value("1")), None);
    assert_eq!(compare(&value("[\"b\"]"), &value("\"a\"")), Some(Ordering::Greater));
    assert!(values_equal(&add(&value("1"), &value("2")), &value("3")));
    assert!(values_equal(&add(&value("\"a\""), &value("1")), &value("\"a1\"")));
    assert!(strict_eq(&number(parse_int(&value("\" -12px\""))), &value("-12")));
    assert!(matches!(parse_int(&value("\"x1\"")), JsNumber::Nan));
    assert_eq!(utf16_len("é😀"), 3);
}

#[test]
fn sums_are_rounded_like_doubles() {
    let context = value(r#"{"a": 0.1, "b": 0.2, "c": 9007199254740993}"#);
    assert_eq!(render("{{add a b}}|{{sub b a}}|{{add c 1}}", &context).unwrap(), "0.30000000000000004|0.1|9007199254740992");
}

// ------------------------------------------------------------------ normal form

#[test]
fn formatting_once_is_enough() {
    let text = "\n\n# T  \n\n\n| a | b |\n|--|:-:|\n| | |\n\nx\n\n</tag>\n```\n\n\n| c | d |\n```\n\n\u{a0}| e |\n~~~\nopen\n\n";
    for options in [
        FormatOptions::default(),
        FormatOptions { render_phase: RenderPhase::PreRender, ..FormatOptions::default() },
        FormatOptions { replace_ascii_symbols: true, ..FormatOptions::default() },
        PRE_ASCII,
    ] {
        let once = ara::prompt_format::format(text, options);
        assert_ne!(once, text);
        assert_eq!(ara::prompt_format::format(&once, options), once);
    }
    let symbols = "a -> .... <!-- b ->\n| c ... | --> <- |\n|<!--> | x |\n-->\n|  !==  | <-> |\n\n\n```\n->\n```\n";
    let once = ara::prompt_format::format(symbols, PRE_ASCII);
    assert_eq!(once, "a → …. <!-- b ->\n|c ...|--> ←|\n|<!-->|x|\n-->\n|≠=|↔|\n```\n->\n```");
    assert_eq!(ara::prompt_format::format(&once, PRE_ASCII), once);
    // The marks around a requirement word go one pair at a time.
    let words = FormatOptions { normalize_rfc2119: true, ..FormatOptions::default() };
    assert_eq!(ara::prompt_format::format("****MUST****", words), "**MUST**");
    assert_eq!(ara::prompt_format::format("a -> b\n\n{{/if}}", FormatOptions::prompt_source()), "a → b\n{{/if}}");
}

#[test]
fn ascii_symbol_replacement() {
    assert_eq!(ara::prompt_format::format("a -> b <- c <-> d != e <= f >= g ... h", FULL), "a → b ← c ↔ d ≠ e ≤ f ≥ g … h");
    assert_eq!(ara::prompt_format::format("<=-> <-> ->= <-- -->x", FULL), "≤→ ↔ →= ←- -→x");
    assert_eq!(ara::prompt_format::format("....... ..", FULL), "……. ..");
    assert_eq!(ara::prompt_format::format("......", FULL), "……");
    assert_eq!(ara::prompt_format::format("....", FULL), "….");
    assert_eq!(ara::prompt_format::format("<!-- a -> b --> c -> d", FULL), "<!-- a -> b --> c → d");
    assert_eq!(ara::prompt_format::format("<!--\nA -> B\n-->\nC -> D", FULL), "<!--\nA -> B\n-->\nC → D");
    assert_eq!(ara::prompt_format::format("x --> y != z", FULL), "x -→ y ≠ z");
    let fenced = "```\na -> b\n```";
    assert_eq!(ara::prompt_format::format(fenced, FULL), fenced);
}

#[test]
fn rfc2119_normalization() {
    assert_eq!(
        ara::prompt_format::format("You **MUST** act. You **MUST NOT** stall. SHOULD NOT applies.", FULL),
        "You MUST act. You NEVER stall. AVOID applies."
    );
    assert_eq!(ara::prompt_format::format("alias `MUST NOT` means MUST NOT", FULL), "alias `MUST NOT` means NEVER");
    assert_eq!(ara::prompt_format::format("**bold** stays **bold**", FULL), "**bold** stays **bold**");
}

#[test]
fn structure() {
    assert_eq!(ara::prompt_format::format("| a | b |\n|:--- | --:|\n| c | d |", DEFAULT), "|a|b|\n|:---|---:|\n|c|d|");
    assert_eq!(ara::prompt_format::format("  | a | b |", DEFAULT), "  |a|b|");
    assert_eq!(ara::prompt_format::format("\n\na\n\n\nb\n \n\t\nc\n\n", DEFAULT), "a\nb\nc");
    assert_eq!(ara::prompt_format::format("a\n\nb", DEFAULT), "a\n\nb");
    assert_eq!(ara::prompt_format::format("<tag>\nbody\n\n</tag>", DEFAULT), "<tag>\nbody\n</tag>");
    assert_eq!(ara::prompt_format::format("<a attr=\"x\">\nbody\n\n</a>", DEFAULT), "<a attr=\"x\">\nbody\n</a>");
    assert_eq!(ara::prompt_format::format("<self/>\nx", DEFAULT), "<self/>\nx");
    let fenced = "```\na\n\n\n\nb\n```";
    assert_eq!(ara::prompt_format::format(fenced, DEFAULT), fenced);
    assert_eq!(ara::prompt_format::format("{{#if x}}\nbody\n\n{{/if}}", PRE), "{{#if x}}\nbody\n{{/if}}");
    assert_eq!(ara::prompt_format::format("body\n\n{{/if}}", POST), "body\n\n{{/if}}");
}

#[test]
fn render_phase_indentation_and_closers() {
    let block = "<root>\n  {{#if ok}}\n    value\n  {{/if}}\n</root>";
    assert_eq!(ara::prompt_format::format(block, PRE), block);
    let tabs = "\t<root>\n\t  {{#if ok}}\n\t    value\n\t  {{/if}}\n</root>";
    assert_eq!(ara::prompt_format::format(tabs, PRE), tabs);
    assert_eq!(
        ara::prompt_format::format("\t<root>   \n\t  {{#if ok}}\t\n\t    value   \n\t  {{/if}} \n</root>", PRE),
        "\t<root>\n\t  {{#if ok}}\n\t    value\n\t  {{/if}}\n</root>"
    );
    assert_eq!(ara::prompt_format::format(block, POST), block);
    let input = "<root>\n{{#if ok}}\nvalue\n\n{{/if}}\n</root>";
    assert_eq!(ara::prompt_format::format(input, PRE), "<root>\n{{#if ok}}\nvalue\n{{/if}}\n</root>");
    assert_eq!(ara::prompt_format::format(input, POST), input);
}

#[test]
fn render_phase_ascii_tables_and_comments() {
    let input = "|`cat <<'EOF' > file`|`write(path=\"file\", content=\"...\")`|\n|`sed -i 's/old/new/' file`|`edit(path=\"file\", edits=[...])`|";
    assert_eq!(
        ara::prompt_format::format(input, PRE_ASCII),
        "|`cat <<'EOF' > file`|`write(path=\"file\", content=\"…\")`|\n|`sed -i 's/old/new/' file`|`edit(path=\"file\", edits=[…])`|"
    );
    let comment = "<!-- Hidden continuation steer. role=user, suppressed from visible transcript. -->";
    assert_eq!(ara::prompt_format::format(comment, PRE_ASCII), comment);
    assert_eq!(ara::prompt_format::format("<!-- -> in comment -->\nvalue -> value", PRE_ASCII), "<!-- -> in comment -->\nvalue → value");
    assert_eq!(ara::prompt_format::format("<!--\nA -> B\n-->", PRE_ASCII), "<!--\nA -> B\n-->");
}

#[test]
fn partials_see_no_helpers() {
    let mut engine = Engine::new();
    engine.register_partial("p", "[{{name}}]");
    let context = value(r#"{"name": "property"}"#);
    assert_eq!(engine.render("{{> p}}", &context).unwrap(), "[property]");
    engine.register_helper("name", plain(|_, _| told("helper".to_string())));
    engine.register_partial("q", "other");
    assert_eq!(engine.render("{{> p}}{{name}}", &context).unwrap(), "[property]helper");
}

#[test]
fn members_are_set_and_removed() {
    let mut o = object(r#"{"a": 1, "b": 2}"#);
    o.insert("a".into(), value("3"));
    o.insert("c".into(), value("4"));
    assert_eq!(o.get("a"), Some(&value("3")));
    assert_eq!(o.get("b"), Some(&value("2")));
    o.remove("b");
    assert_eq!(o.get("b"), None);
    assert_eq!(Json::Object(o).text(), r#"{"a":3,"c":4}"#);
}

#[test]
fn trimming_twice_is_trimming_once() {
    assert_eq!(ara::js::trim("\u{feff} a b \n"), "a b");
    assert_eq!(ara::js::trim(&ara::js::trim("  x ")), "x");
    assert_eq!(ara::js::trim(" \t\n"), "");
}
