//! What the helpers of templates make of their arguments and of their blocks.
use crate::js;
use crate::json;
use crate::json::{JsonView, NumberView};
use crate::template;
use crate::template::{Helper, HelperCallView, OutputView, PlanView};
use crate::template_laws;
use crate::text;
use crate::text::Space;
use crate::value_laws;
use vstd::prelude::*;

verus! {

/// The helper gives a text.
pub open spec fn gives_text(helper: Helper, h: HelperCallView, s: Seq<char>) -> bool {
    template::plan(helper, h) == Ok::<PlanView, Seq<char>>(
        PlanView::Ready(OutputView::Value(JsonView::String(s))),
    )
}

/// A separator without backslashes is itself; in one with them `\n` and `\t` stand for the line
/// end and the tab.
pub proof fn law_what_separators_are(s: Seq<char>)
    requires
        !s.contains('\\'),
    ensures
        template::separator(s) == s,
        template::separator("\\n"@) == seq!['\n'],
        template::separator("\\t"@) == seq!['\t'],
{
    reveal_strlit("\\n");
    reveal_strlit("\\t");
    reveal_strlit("\n");
    reveal_strlit("\t");
    let n = "\\n"@;
    let t = "\\t"@;
    let none = Seq::<char>::empty();
    assert(n =~= seq!['\\', 'n']);
    assert(t =~= seq!['\\', 't']);
    assert("\n"@ =~= seq!['\n']);
    assert("\t"@ =~= seq!['\t']);
    value_laws::law_what_is_replaced(s, n, none, "\n"@);
    value_laws::law_what_is_replaced(s, t, none, "\t"@);
    assert(!none.contains('\\'));
    value_laws::law_what_is_replaced(none, n, none, "\n"@);
    assert(none + n + none =~= n);
    assert(none + "\n"@ + none =~= "\n"@);
    assert(text::replaced(none, n, "\n"@) =~= none);
    let line = seq!['\n'];
    assert(!line.contains('\\'));
    value_laws::law_what_is_replaced(line, t, none, "\t"@);
    assert(text::replaced(n, n, "\n"@) == line);
    value_laws::law_what_is_replaced(none, t, none, "\t"@);
    assert(none + t + none =~= t);
    assert(none + "\t"@ + none =~= "\t"@);
    assert(text::replaced(none, t, "\t"@) =~= none);
    assert(text::replaced(t, n, "\n"@) == t) by {
        assert(!text::stands_at(t, 0, n)) by {
            if text::stands_at(t, 0, n) {
                assert(t.subrange(0, 2)[1] == t[1]);
            }
        }
        assert(!text::stands_at(t, 1, n));
        reveal_with_fuel(text::replaced_from, 4);
        assert(text::replaced_from(t, n, "\n"@, 2) =~= none);
        assert(text::replaced_from(t, n, "\n"@, 1) =~= seq!['t']);
        assert(text::replaced_from(t, n, "\n"@, 0) =~= t);
    }
}

/// A list is joined with its separator, or with a comma and a blank where it has none; what is null
/// in it is left empty.
pub proof fn law_how_lists_are_joined(h: HelperCallView, items: Seq<JsonView>, sep: Seq<char>)
    requires
        template_laws::argument(h, 0) == JsonView::Array(items),
        !sep.contains('\\'),
    ensures
        ({
            let texts = Seq::new(
                items.len(),
                |i: int|
                    if items[i] is Null {
                        Seq::empty()
                    } else {
                        js::js_text(items[i])
                    },
            );
            &&& template_laws::argument(h, 1) == JsonView::String(sep) ==> gives_text(
                Helper::Join,
                h,
                text::join(texts, sep),
            )
            &&& !(template_laws::argument(h, 1) is String) ==> gives_text(
                Helper::Join,
                h,
                text::join(texts, ", "@),
            )
        }),
{
    reveal(template::plan);
    law_what_separators_are(sep);
    assert(js::element_texts(items) =~= Seq::new(
        items.len(),
        |i: int|
            if items[i] is Null {
                Seq::empty()
            } else {
                js::js_text(items[i])
            },
    ));
}

/// A count is written with the word for one where it is one, else with the word for many.
pub proof fn law_how_counts_are_written(h: HelperCallView)
    ensures
        ({
            let count = template_laws::argument(h, 0);
            let one = js::identical(count, JsonView::Number(NumberView::PosInt(1)));
            &&& one ==> gives_text(
                Helper::Pluralize,
                h,
                js::js_text(count) + " "@ + js::js_text(template_laws::argument(h, 1)),
            )
            &&& !one ==> gives_text(
                Helper::Pluralize,
                h,
                js::js_text(count) + " "@ + js::js_text(template_laws::argument(h, 2)),
            )
        }),
{
    reveal(template::plan);
}

/// The items of a list stand between the same two texts, with its separator between them: a line
/// end, where it names none.
pub proof fn law_how_lists_are_rendered(h: HelperCallView, rendered: Seq<Seq<char>>)
    requires
        json::lookup(h.hash, "join"@) is None,
    ensures
        ({
            let before: Seq<char> = match json::lookup(h.hash, "prefix"@) {
                Some(v) => if v is Null {
                    ""@
                } else {
                    js::js_text(v)
                },
                None => ""@,
            };
            let after: Seq<char> = match json::lookup(h.hash, "suffix"@) {
                Some(v) => if v is Null {
                    ""@
                } else {
                    js::js_text(v)
                },
                None => ""@,
            };
            template::finished(Helper::List, h, rendered) == text::join(
                Seq::new(rendered.len(), |i: int| before + rendered[i] + after),
                "\n"@,
            )
        }),
{
    reveal(template::finished);
    let before = template::string_or(json::lookup(h.hash, "prefix"@), ""@);
    let after = template::string_or(json::lookup(h.hash, "suffix"@), ""@);
    assert(template::surrounded(rendered, before, after) =~= Seq::new(
        rendered.len(),
        |i: int| before + rendered[i] + after,
    ));
}

/// The rows of a table stand between bars, one per line, below its head where it has one.
pub proof fn law_how_tables_are_rendered(h: HelperCallView, rendered: Seq<Seq<char>>, heads: Seq<Seq<char>>)
    requires
        heads.len() > 0,
        forall|i: int| 0 <= i < heads.len() ==> !(#[trigger] heads[i]).contains('|'),
    ensures
        ({
            let rows = text::join(
                Seq::new(
                    rendered.len(),
                    |i: int| "| "@ + text::trim(Space::Js, rendered[i]) + " |"@,
                ),
                "\n"@,
            );
            let head = "| "@ + text::join(heads, " | "@) + " |\n| "@ + text::join(
                Seq::new(heads.len(), |i: int| "---"@),
                " | "@,
            ) + " |\n"@;
            &&& json::lookup(h.hash, "headers"@) is None ==> template::finished(
                Helper::Table,
                h,
                rendered,
            ) == rows
            &&& json::lookup(h.hash, "headers"@) == Some(
                JsonView::String(text::join(heads, seq!['|'])),
            ) ==> template::finished(Helper::Table, h, rendered) == head + rows
        }),
{
    reveal(template::finished);
    assert(template::rows(rendered) =~= Seq::new(
        rendered.len(),
        |i: int| "| "@ + text::trim(Space::Js, rendered[i]) + " |"@,
    ));
    assert(template::rules(heads.len()) =~= Seq::new(heads.len(), |i: int| "---"@));
    assert(text::pieces_without(heads, '|'));
    text::law_joined_pieces_split(heads, '|');
    let rows = text::join(template::rows(rendered), "\n"@);
    assert(Seq::<char>::empty() + rows =~= rows);
}

/// A code block has its text between fences, with its language; an element of XML its text between
/// its tags, and vanishes where it has none.
pub proof fn law_how_blocks_are_wrapped(h: HelperCallView, body: Seq<char>)
    ensures
        ({
            let t = text::trim(Space::Js, body);
            let tag = js::js_text(template_laws::argument(h, 0));
            &&& json::lookup(h.hash, "lang"@) matches Some(JsonView::String(lang))
                ==> template::finished(Helper::Codeblock, h, seq![body]) == "```"@ + lang + "\n"@
                + t + "\n```"@
            &&& t.len() == 0 ==> template::finished(Helper::Xml, h, seq![body]).len() == 0
            &&& t.len() > 0 ==> template::finished(Helper::Xml, h, seq![body]) == "<"@ + tag + ">\n"@
                + t + "\n</"@ + tag + ">"@
        }),
        template::finished(Helper::When, h, seq![body]) == body,
        template::finished(Helper::IfAny, h, seq![body]) == body,
        template::finished(Helper::IfAll, h, seq![body]) == body,
        template::finished(Helper::Has, h, seq![body]) == body,
{
    reveal(template::finished);
}

/// A text is put into XML character by character: the four that have a meaning there are written
/// as entities.
pub proof fn law_how_xml_is_escaped(s: Seq<char>, c: char)
    ensures
        template::xml_escaped(Seq::empty()).len() == 0,
        template::xml_escaped(s.push(c)) == template::xml_escaped(s) + (if c == '&' {
            "&amp;"@
        } else if c == '<' {
            "&lt;"@
        } else if c == '>' {
            "&gt;"@
        } else if c == '"' {
            "&quot;"@
        } else {
            seq![c]
        }),
        forall|h: HelperCallView|
            template_laws::argument(h, 0) == JsonView::String(s) ==> #[trigger] gives_text(
                Helper::EscapeXml,
                h,
                template::xml_escaped(s),
            ),
{
    reveal(template::plan);
    assert(s.push(c).drop_last() =~= s);
}

/// A list has an item where one of its elements is identical to it, an object where it has a member
/// of that name.
pub proof fn law_what_values_have(h: HelperCallView, name: Seq<char>)
    ensures
        template_laws::argument(h, 0) matches JsonView::Array(items) ==> template::plan(
            Helper::Has,
            h,
        ) == Ok::<PlanView, Seq<char>>(
            PlanView::Once {
                inverse: !(exists|i: int|
                    0 <= i < items.len() && js::identical(
                        #[trigger] items[i],
                        template_laws::argument(h, 1),
                    )),
            },
        ),
        (template_laws::argument(h, 0) matches JsonView::Object(o) && json::lookup(o, name) is Some
            && template_laws::argument(h, 1) == JsonView::String(name)) ==> template::plan(
            Helper::Has,
            h,
        ) == Ok::<PlanView, Seq<char>>(PlanView::Once { inverse: false }),
{
    reveal(template::plan);
}

/// Values are added as the sum of two values is; what is not there counts as zero. A difference is
/// one of numbers.
pub proof fn law_how_helpers_add(h: HelperCallView)
    ensures
        ({
            let a = template_laws::argument(h, 0);
            let b = template_laws::argument(h, 1);
            let zero = JsonView::Number(NumberView::PosInt(0));
            let x = if a is Null {
                zero
            } else {
                a
            };
            let y = if b is Null {
                zero
            } else {
                b
            };
            &&& template::plan(Helper::Add, h) == Ok::<PlanView, Seq<char>>(
                PlanView::Ready(OutputView::Value(js::sum_value(x, y))),
            )
            &&& template::plan(Helper::Sub, h) == Ok::<PlanView, Seq<char>>(
                PlanView::Ready(
                    OutputView::Value(
                        js::number_value(js::subtracted(js::number_of(x), js::number_of(y))),
                    ),
                ),
            )
            &&& !(a is Null) ==> gives_text(Helper::JsonStringify, h, js::json_text(a))
        }),
{
    reveal(template::plan);
}

/// The elements of a list, and of a table, are rendered one by one; what is no list renders as
/// nothing.
pub proof fn law_what_is_rendered_one_by_one(h: HelperCallView)
    requires
        json::lookup(h.hash, "join"@) is None,
        json::lookup(h.hash, "headers"@) is None,
    ensures
        template_laws::argument(h, 0) matches JsonView::Array(items) ==> template::plan(
            Helper::List,
            h,
        ) == Ok::<PlanView, Seq<char>>(PlanView::Items(items)),
        (template_laws::argument(h, 0) matches JsonView::Array(items) && items.len() > 0)
            ==> template::plan(Helper::Table, h) == Ok::<PlanView, Seq<char>>(
            PlanView::Items(template_laws::argument(h, 0)->Array_0),
        ),
        !(template_laws::argument(h, 0) is Array) ==> gives_text(Helper::List, h, Seq::empty())
            && gives_text(Helper::Table, h, Seq::empty()),
{
    reveal(template::plan);
}

/// Lists are joined by line breaks unless another text is given for it; anything else is refused.
pub proof fn law_which_separators_are_taken(hash: crate::json::Entries, s: Seq<char>)
    ensures
        json::lookup(hash, "join"@) is None || json::lookup(hash, "join"@) == Some(JsonView::Null)
            ==> template::list_separator(hash) == Some("\n"@),
        json::lookup(hash, "join"@) == Some(JsonView::String(s)) ==> template::list_separator(hash)
            == Some(template::separator(s)),
        (json::lookup(hash, "join"@) matches Some(v) && !(v is Null) && !(v is String))
            ==> template::list_separator(hash) is None,
{
}

/// An object has its members, and what every object has; a list has its items; nothing else has
/// anything.
pub proof fn law_what_has_what(o: crate::json::Entries, name: Seq<char>, v: JsonView)
    ensures
        json::lookup(o, name) is Some ==> template::has_item(
            JsonView::Object(o),
            JsonView::String(name),
        ),
        template::has_item(JsonView::Object(o), JsonView::String("toString"@)),
        template::has_item(JsonView::Object(o), JsonView::String("constructor"@)),
        json::lookup(o, name) is None && !template::is_object_key(name) ==> !template::has_item(
            JsonView::Object(o),
            JsonView::String(name),
        ),
        !(v is Array) && !(v is Object) ==> !template::has_item(v, JsonView::String(name)),
        v is Null || v is Bool ==> !template::has_item(JsonView::Object(o), v),
{
    assert(js::js_text(JsonView::String(name)) == name);
    assert(js::js_text(JsonView::String("toString"@)) == "toString"@);
    assert(js::js_text(JsonView::String("constructor"@)) == "constructor"@);
}

/// A partial sees the members of its context with its own arguments over them.
pub proof fn law_what_a_partial_sees(
    o: crate::json::Entries,
    more: crate::json::Entries,
    name: Seq<char>,
    value: JsonView,
    v: JsonView,
)
    ensures
        template::merged(JsonView::Object(o), Seq::empty()) == JsonView::Object(o),
        template::merged(JsonView::Object(o), more.push((name, value))) matches JsonView::Object(all)
            && template::merged(JsonView::Object(o), more) matches JsonView::Object(have) && all
            == json::with_member(have, name, value),
        template::merged(JsonView::Null, more) == JsonView::Object(Seq::empty()),
        v is Bool || v is Number || v is String ==> template::merged(v, more) == v,
{
    assert(more.push((name, value)).drop_last() =~= more);
}

} // verus!
