//! Prompts: templates with the helpers of the library, rendered without escaping and normalized.
use crate::json::{Json, JsonView};
use crate::prompt_format;
use crate::prompt_format::FormatOptions;
use crate::template;
use crate::template::{Engine, EngineView, Helper, Template};
use crate::template_parse;
use crate::template_parse::TemplateError;
use vstd::prelude::*;

verus! {

/// The helpers of the library by their names.
pub open spec fn builtin_helpers() -> Seq<(Seq<char>, Helper)> {
    seq![
        ("arg"@, Helper::Arg),
        ("list"@, Helper::List),
        ("join"@, Helper::Join),
        ("default"@, Helper::Default),
        ("pluralize"@, Helper::Pluralize),
        ("when"@, Helper::When),
        ("ifAny"@, Helper::IfAny),
        ("ifAll"@, Helper::IfAll),
        ("table"@, Helper::Table),
        ("codeblock"@, Helper::Codeblock),
        ("xml"@, Helper::Xml),
        ("escapeXml"@, Helper::EscapeXml),
        ("len"@, Helper::Len),
        ("add"@, Helper::Add),
        ("sub"@, Helper::Sub),
        ("has"@, Helper::Has),
        ("includes"@, Helper::Includes),
        ("not"@, Helper::Not),
        ("jsonStringify"@, Helper::JsonStringify),
    ]
}

/// The engine of prompts.
pub open spec fn prompt_engine() -> EngineView {
    EngineView {
        helpers: builtin_helpers(),
        partials: Seq::empty(),
        no_escape: true,
    }
}

/// The engine of prompts.
pub fn builtin_engine() -> (r: Engine)
    ensures
        r@ == prompt_engine(),
{
    let mut helpers: Vec<(String, Helper)> = Vec::new();
    helpers.push(("arg".to_owned(), Helper::Arg));
    helpers.push(("list".to_owned(), Helper::List));
    helpers.push(("join".to_owned(), Helper::Join));
    helpers.push(("default".to_owned(), Helper::Default));
    helpers.push(("pluralize".to_owned(), Helper::Pluralize));
    helpers.push(("when".to_owned(), Helper::When));
    helpers.push(("ifAny".to_owned(), Helper::IfAny));
    helpers.push(("ifAll".to_owned(), Helper::IfAll));
    helpers.push(("table".to_owned(), Helper::Table));
    helpers.push(("codeblock".to_owned(), Helper::Codeblock));
    helpers.push(("xml".to_owned(), Helper::Xml));
    helpers.push(("escapeXml".to_owned(), Helper::EscapeXml));
    helpers.push(("len".to_owned(), Helper::Len));
    helpers.push(("add".to_owned(), Helper::Add));
    helpers.push(("sub".to_owned(), Helper::Sub));
    helpers.push(("has".to_owned(), Helper::Has));
    helpers.push(("includes".to_owned(), Helper::Includes));
    helpers.push(("not".to_owned(), Helper::Not));
    helpers.push(("jsonStringify".to_owned(), Helper::JsonStringify));
    let r = Engine { helpers, partials: Vec::new(), no_escape: true };
    assert(r@.helpers =~= builtin_helpers());
    assert(r@.partials =~= Seq::empty());
    r
}

/// Reads a prompt.
pub fn compile(source: &str) -> (r: Result<Template, TemplateError>)
    ensures
        match template_parse::template_of(source@) {
            Ok(nodes) => r matches Ok(t) && template_parse::nodes_view(t.nodes) == nodes,
            Err(e) => r matches Err(told) && told.0@ == e,
        },
{
    Engine::new().compile(source)
}

/// A prompt rendered on a context, then normalized.
pub open spec fn prompt_text(eng: EngineView, source: Seq<char>, context: JsonView) -> Result<
    Seq<char>,
    Seq<char>,
> {
    match template::source_text(eng, source, context) {
        Ok(t) => Ok(prompt_format::formatted(t, prompt_format::plain_options())),
        Err(e) => Err(e),
    }
}

/// Renders a prompt with an engine, and normalizes it.
pub fn render_with(engine: &Engine, source: &str, context: &Json) -> (r: Result<
    String,
    TemplateError,
>)
    ensures
        template_parse::parsed_view(r) == prompt_text(engine@, source@, context@),
{
    match engine.render(source, context) {
        Ok(t) => Ok(prompt_format::format(t.as_str(), FormatOptions::default())),
        Err(e) => Err(e),
    }
}

/// Renders a prompt, and normalizes it.
pub fn render(source: &str, context: &Json) -> (r: Result<String, TemplateError>)
    ensures
        template_parse::parsed_view(r) == prompt_text(prompt_engine(), source@, context@),
{
    render_with(&builtin_engine(), source, context)
}

} // verus!
