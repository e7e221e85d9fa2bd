//! What the tags of a template do: which value a name stands for, which part of a block is
//! rendered, how often, and in which context.
use crate::js;
use crate::json;
use crate::json::{Entries, JsonView, NumberView};
use crate::number;
use crate::template;
use crate::template::{EngineView, FrameView, Helper, HelperCallView, OutputView, PlanView};
use crate::template_parse::{CallView, ExprView, NodeView, MAX_NESTING};
use crate::text;
use vstd::prelude::*;

verus! {

/// A value that a condition takes for nothing.
pub open spec fn is_nothing(v: JsonView) -> bool {
    match v {
        JsonView::Null => true,
        JsonView::Bool(b) => !b,
        JsonView::String(s) => s.len() == 0,
        JsonView::Array(a) => a.len() == 0,
        JsonView::Number(n) => number::float_equal(n, NumberView::PosInt(0)),
        JsonView::Object(_) => false,
    }
}

/// No helper goes by that name.
pub open spec fn is_free(eng: EngineView, name: Seq<char>) -> bool {
    forall|i: int| 0 <= i < eng.helpers.len() ==> (#[trigger] eng.helpers[i]).0 != name
}

/// A name with one argument.
pub open spec fn of_one(name: Seq<char>, e: ExprView) -> CallView {
    CallView { name, args: seq![e], hash: Seq::empty() }
}

/// A bare name.
pub open spec fn bare(name: Seq<char>) -> CallView {
    CallView { name, args: Seq::empty(), hash: Seq::empty() }
}

/// A frame in which another value is the context.
pub open spec fn within(f: FrameView, v: JsonView, data: Entries) -> FrameView {
    FrameView { context: v, parent: Some(Box::new(f)), root: f.root, data }
}

/// All pieces, rendered one after the other.
pub open spec fn whole(eng: EngineView, nodes: Seq<NodeView>, f: FrameView, depth: nat) -> Result<
    Seq<char>,
    Seq<char>,
> {
    template::rendered(eng, nodes, nodes.len(), f, depth)
}

proof fn lemma_free(eng: EngineView, name: Seq<char>)
    requires
        is_free(eng, name),
    ensures
        template::under(eng.helpers, name) is None,
{
    lemma_not_named(eng.helpers, name, 0);
}

proof fn lemma_not_named<T>(list: Seq<(Seq<char>, T)>, name: Seq<char>, i: int)
    requires
        0 <= i,
        forall|j: int| 0 <= j < list.len() ==> (#[trigger] list[j]).0 != name,
    ensures
        template::name_at(list, name, i) is None,
    decreases list.len() - i,
{
    if i < list.len() {
        assert(list[i].0 != name);
        lemma_not_named(list, name, i + 1);
    }
}

proof fn lemma_one_argument(
    eng: EngineView,
    name: Seq<char>,
    e: ExprView,
    f: FrameView,
    depth: nat,
)
    ensures
        ({
            let call = of_one(name, e);
            &&& template::arguments(eng, call, 1, f, depth) == (match template::evaluated(
                eng,
                e,
                f,
                depth,
            ) {
                Ok(v) => Ok::<Seq<JsonView>, Seq<char>>(seq![v]),
                Err(x) => Err(x),
            })
            &&& call.args.len() == 1
            &&& template::named_arguments(eng, call, 0, f, depth) == Ok::<Entries, Seq<char>>(
                Seq::empty(),
            )
        }),
{
    let call = of_one(name, e);
    let none = Seq::<JsonView>::empty();
    assert(call.args[0] == e);
    assert(template::arguments(eng, call, 0, f, depth) == Ok::<Seq<JsonView>, Seq<char>>(none));
    match template::evaluated(eng, e, f, depth) {
        Ok(v) => {
            assert(none.push(v) =~= seq![v]);
        },
        Err(_) => {},
    }
}

proof fn lemma_block_names()
    ensures
        "if"@ != "unless"@ && "if"@ != "each"@ && "if"@ != "with"@ && "unless"@ != "each"@
            && "unless"@ != "with"@ && "each"@ != "with"@,
{
    reveal_strlit("if");
    reveal_strlit("unless");
    reveal_strlit("each");
    reveal_strlit("with");
    assert("if"@.len() == 2 && "unless"@.len() == 6 && "each"@[0] == 'e' && "with"@[0] == 'w');
    assert("each"@.len() == 4 && "with"@.len() == 4);
}

/// `{{#with v}}body{{else}}other{{/with}}` is its body with `v` as the context; what stood outside
/// is one step up. Where `v` is nothing, it is the other part, in the context around it.
pub proof fn law_with_changes_the_context(
    eng: EngineView,
    e: ExprView,
    v: JsonView,
    body: Seq<NodeView>,
    inverse: Seq<NodeView>,
    f: FrameView,
    depth: nat,
)
    requires
        is_free(eng, "with"@),
        depth < MAX_NESTING,
        template::evaluated(eng, e, f, depth + 1) == Ok::<JsonView, Seq<char>>(v),
    ensures
        template::piece(
            eng,
            NodeView::Block { call: of_one("with"@, e), body, inverse },
            f,
            depth,
        ) == (if is_nothing(v) {
            whole(eng, inverse, f, depth + 1)
        } else {
            whole(eng, body, within(f, v, f.data), depth + 1)
        }),
{
    lemma_free(eng, "with"@);
    lemma_block_names();
    lemma_one_argument(eng, "with"@, e, f, depth + 1);
    assert(seq![v][0] == v);
    let node = NodeView::Block { call: of_one("with"@, e), body, inverse };
    assert(template::piece(eng, node, f, depth) == template::block(eng, node, f, depth));
}

/// `{{#if v}}body{{else}}other{{/if}}` is its body unless `v` is nothing, and else its other part;
/// `unless` turns the two around. Both are rendered where they stand.
pub proof fn law_conditions_choose_a_part(
    eng: EngineView,
    e: ExprView,
    v: JsonView,
    body: Seq<NodeView>,
    inverse: Seq<NodeView>,
    f: FrameView,
    depth: nat,
)
    requires
        is_free(eng, "if"@),
        is_free(eng, "unless"@),
        depth < MAX_NESTING,
        template::evaluated(eng, e, f, depth + 1) == Ok::<JsonView, Seq<char>>(v),
    ensures
        template::piece(
            eng,
            NodeView::Block { call: of_one("if"@, e), body, inverse },
            f,
            depth,
        ) == whole(
            eng,
            if is_nothing(v) {
                inverse
            } else {
                body
            },
            f,
            depth + 1,
        ),
        template::piece(
            eng,
            NodeView::Block { call: of_one("unless"@, e), body, inverse },
            f,
            depth,
        ) == whole(
            eng,
            if is_nothing(v) {
                body
            } else {
                inverse
            },
            f,
            depth + 1,
        ),
{
    lemma_free(eng, "if"@);
    lemma_free(eng, "unless"@);
    lemma_block_names();
    lemma_one_argument(eng, "if"@, e, f, depth + 1);
    lemma_one_argument(eng, "unless"@, e, f, depth + 1);
    assert(seq![v][0] == v);
    let none = Seq::<(Seq<char>, JsonView)>::empty();
    json::lemma_find_key(none, "includeZero"@, 0);
    assert(json::lookup(none, "includeZero"@) is None);
    let yes = NodeView::Block { call: of_one("if"@, e), body, inverse };
    let no = NodeView::Block { call: of_one("unless"@, e), body, inverse };
    assert(template::piece(eng, yes, f, depth) == template::block(eng, yes, f, depth));
    assert(template::piece(eng, no, f, depth) == template::block(eng, no, f, depth));
}

/// The texts, one after the other.
pub open spec fn in_a_row(texts: Seq<Seq<char>>) -> Seq<char>
    decreases texts.len(),
{
    if texts.len() == 0 {
        Seq::empty()
    } else {
        texts[0] + in_a_row(texts.skip(1))
    }
}

proof fn lemma_in_a_row(texts: Seq<Seq<char>>, last: Seq<char>)
    ensures
        in_a_row(texts.push(last)) == in_a_row(texts) + last,
    decreases texts.len(),
{
    if texts.len() == 0 {
        assert(texts.push(last).skip(1) =~= Seq::empty());
        assert(in_a_row(texts.push(last).skip(1)) =~= Seq::empty());
        assert(in_a_row(texts.push(last)) =~= last);
        assert(in_a_row(texts) + last =~= last);
    } else {
        lemma_in_a_row(texts.skip(1), last);
        assert(texts.push(last).skip(1) =~= texts.skip(1).push(last));
        assert(in_a_row(texts.push(last)) =~= in_a_row(texts) + last);
    }
}

proof fn lemma_joined_all(list: Seq<Seq<char>>)
    ensures
        template::joined_all(list) == in_a_row(list),
    decreases list.len(),
{
    if list.len() > 0 {
        lemma_joined_all(list.drop_last());
        lemma_in_a_row(list.drop_last(), list.last());
        assert(list.drop_last().push(list.last()) =~= list);
    }
}

proof fn lemma_turns(
    eng: EngineView,
    body: Seq<NodeView>,
    list: Seq<(JsonView, Entries)>,
    n: nat,
    f: FrameView,
    depth: nat,
    texts: Seq<Seq<char>>,
)
    requires
        n <= list.len(),
        texts.len() == list.len(),
        forall|i: int|
            0 <= i < list.len() ==> whole(
                eng,
                body,
                within(f, (#[trigger] list[i]).0, list[i].1),
                depth,
            ) == Ok::<Seq<char>, Seq<char>>(texts[i]),
    ensures
        template::turns(eng, body, list, n, f, depth) == Ok::<Seq<Seq<char>>, Seq<char>>(
            texts.take(n as int),
        ),
    decreases n,
{
    if n > 0 {
        lemma_turns(eng, body, list, (n - 1) as nat, f, depth, texts);
        let i = n - 1;
        assert(whole(eng, body, within(f, list[i].0, list[i].1), depth) == Ok::<
            Seq<char>,
            Seq<char>,
        >(texts[i]));
        assert(texts.take(n as int) =~= texts.take(n - 1).push(texts[i]));
    } else {
        assert(texts.take(0) =~= Seq::empty());
    }
}

/// What a turn of a loop over a list knows of itself.
pub open spec fn turn_of(data: Entries, i: int, n: int) -> Entries {
    template::turn_data(data, i, JsonView::Number(NumberView::PosInt(i as u64)), i == n - 1)
}

/// `{{#each list}}body{{else}}other{{/each}}` is its body once for each element, in order, with
/// the element as the context; an empty list gives the other part.
pub proof fn law_each_renders_every_element(
    eng: EngineView,
    e: ExprView,
    items: Seq<JsonView>,
    body: Seq<NodeView>,
    inverse: Seq<NodeView>,
    f: FrameView,
    depth: nat,
    texts: Seq<Seq<char>>,
)
    requires
        is_free(eng, "each"@),
        depth < MAX_NESTING,
        template::evaluated(eng, e, f, depth + 1) == Ok::<JsonView, Seq<char>>(
            JsonView::Array(items),
        ),
        texts.len() == items.len(),
        forall|i: int|
            0 <= i < items.len() ==> whole(
                eng,
                body,
                within(f, #[trigger] items[i], turn_of(f.data, i, items.len() as int)),
                depth + 1,
            ) == Ok::<Seq<char>, Seq<char>>(texts[i]),
    ensures
        template::piece(
            eng,
            NodeView::Block { call: of_one("each"@, e), body, inverse },
            f,
            depth,
        ) == (if items.len() == 0 {
            whole(eng, inverse, f, depth + 1)
        } else {
            Ok::<Seq<char>, Seq<char>>(in_a_row(texts))
        }),
{
    lemma_free(eng, "each"@);
    lemma_block_names();
    lemma_one_argument(eng, "each"@, e, f, depth + 1);
    let v = JsonView::Array(items);
    assert(seq![v][0] == v);
    let list = template::loop_turns(v, f.data);
    assert(list.len() == items.len());
    assert forall|i: int| 0 <= i < list.len() implies whole(
        eng,
        body,
        within(f, (#[trigger] list[i]).0, list[i].1),
        depth + 1,
    ) == Ok::<Seq<char>, Seq<char>>(texts[i]) by {
        assert(list[i] == (items[i], turn_of(f.data, i, items.len() as int)));
    }
    lemma_turns(eng, body, list, list.len(), f, depth + 1, texts);
    assert(texts.take(texts.len() as int) =~= texts);
    lemma_joined_all(texts);
    let node = NodeView::Block { call: of_one("each"@, e), body, inverse };
    assert(template::piece(eng, node, f, depth) == template::block(eng, node, f, depth));
}

/// A turn knows its place, its key and whether it is the first or the last; all else that was
/// known stays known.
pub proof fn law_a_turn_knows_its_place(
    data: Entries,
    i: int,
    key: JsonView,
    last: bool,
    other: Seq<char>,
)
    requires
        json::distinct_keys(data),
        other != "index"@,
        other != "key"@,
        other != "first"@,
        other != "last"@,
    ensures
        ({
            let d = template::turn_data(data, i, key, last);
            &&& json::lookup(d, "index"@) == Some(
                JsonView::Number(NumberView::PosInt(i as u64)),
            )
            &&& json::lookup(d, "key"@) == Some(key)
            &&& json::lookup(d, "first"@) == Some(JsonView::Bool(i == 0))
            &&& json::lookup(d, "last"@) == Some(JsonView::Bool(last))
            &&& json::lookup(d, other) == json::lookup(data, other)
        }),
{
    reveal_strlit("index");
    reveal_strlit("key");
    reveal_strlit("first");
    reveal_strlit("last");
    assert("index"@[0] == 'i' && "key"@[0] == 'k' && "first"@[0] == 'f' && "last"@[0] == 'l');
    let at = JsonView::Number(NumberView::PosInt(i as u64));
    let a = json::with_member(data, "index"@, at);
    let b = json::with_member(a, "key"@, key);
    let c = json::with_member(b, "first"@, JsonView::Bool(i == 0));
    let d = json::with_member(c, "last"@, JsonView::Bool(last));
    json::law_set_members_read_back(data, "index"@, at, other);
    json::law_set_members_read_back(a, "key"@, key, "index"@);
    json::law_set_members_read_back(a, "key"@, key, other);
    json::law_set_members_read_back(b, "first"@, JsonView::Bool(i == 0), "index"@);
    json::law_set_members_read_back(b, "first"@, JsonView::Bool(i == 0), "key"@);
    json::law_set_members_read_back(b, "first"@, JsonView::Bool(i == 0), other);
    json::law_set_members_read_back(c, "last"@, JsonView::Bool(last), "index"@);
    json::law_set_members_read_back(c, "last"@, JsonView::Bool(last), "key"@);
    json::law_set_members_read_back(c, "last"@, JsonView::Bool(last), "first"@);
    json::law_set_members_read_back(c, "last"@, JsonView::Bool(last), other);
}

/// A template is its pieces, rendered where they stand, one after the other.
pub proof fn law_pieces_are_rendered_in_order(
    eng: EngineView,
    nodes: Seq<NodeView>,
    f: FrameView,
    depth: nat,
    texts: Seq<Seq<char>>,
)
    requires
        texts.len() == nodes.len(),
        forall|i: int|
            0 <= i < nodes.len() ==> template::piece(eng, #[trigger] nodes[i], f, depth) == Ok::<
                Seq<char>,
                Seq<char>,
            >(texts[i]),
    ensures
        whole(eng, nodes, f, depth) == Ok::<Seq<char>, Seq<char>>(in_a_row(texts)),
{
    lemma_pieces(eng, nodes, nodes.len(), f, depth, texts);
    assert(texts.take(texts.len() as int) =~= texts);
}

proof fn lemma_pieces(
    eng: EngineView,
    nodes: Seq<NodeView>,
    n: nat,
    f: FrameView,
    depth: nat,
    texts: Seq<Seq<char>>,
)
    requires
        n <= nodes.len(),
        texts.len() == nodes.len(),
        forall|i: int|
            0 <= i < nodes.len() ==> template::piece(eng, #[trigger] nodes[i], f, depth) == Ok::<
                Seq<char>,
                Seq<char>,
            >(texts[i]),
    ensures
        template::rendered(eng, nodes, n, f, depth) == Ok::<Seq<char>, Seq<char>>(
            in_a_row(texts.take(n as int)),
        ),
    decreases n,
{
    if n > 0 {
        lemma_pieces(eng, nodes, (n - 1) as nat, f, depth, texts);
        let i = n - 1;
        assert(template::piece(eng, nodes[i], f, depth) == Ok::<Seq<char>, Seq<char>>(texts[i]));
        assert(texts.take(n as int) =~= texts.take(i).push(texts[i]));
        lemma_in_a_row(texts.take(i), texts[i]);
    } else {
        assert(texts.take(0) =~= Seq::empty());
    }
}

// ------------------------------------------------------------------ names

/// A name of letters, digits and underscores that is not reserved.
pub open spec fn is_name(s: Seq<char>) -> bool {
    s.len() > 0 && s != "this"@ && forall|i: int| 0 <= i < s.len() ==> is_name_char(#[trigger] s[i])
}

/// A letter, a digit or an underscore.
pub open spec fn is_name_char(c: char) -> bool {
    ('a' <= c && c <= 'z') || ('A' <= c && c <= 'Z') || ('0' <= c && c <= '9') || c == '_'
}

proof fn lemma_run(s: Seq<char>, i: int, start: int, n: int)
    requires
        0 <= i <= n <= s.len(),
        forall|k: int| i <= k < n ==> is_name_char(#[trigger] s[k]),
    ensures
        template::parts_from(s, i, start, None) == template::parts_from(s, n, start, None),
    decreases n - i,
{
    if i < n {
        assert(is_name_char(s[i]));
        lemma_run(s, i + 1, start, n);
    }
}

proof fn lemma_one_part(s: Seq<char>)
    requires
        is_name(s),
    ensures
        template::parts(s) == seq![s],
{
    lemma_run(s, 0, 0, s.len() as int);
    assert(s.subrange(0, s.len() as int) =~= s);
}

/// A path of two names.
pub open spec fn dotted(a: Seq<char>, b: Seq<char>) -> Seq<char> {
    a + seq!['.'] + b
}

proof fn lemma_two_parts(a: Seq<char>, b: Seq<char>)
    requires
        is_name(a),
        is_name(b),
    ensures
        template::parts(dotted(a, b)) == seq![a, b],
{
    let s = dotted(a, b);
    let n = a.len() as int;
    let m = s.len() as int;
    assert forall|k: int| 0 <= k < n implies is_name_char(#[trigger] s[k]) by {
        assert(s[k] == a[k]);
    }
    lemma_run(s, 0, 0, n);
    assert(s[n] == '.');
    assert(s.subrange(0, n) =~= a);
    assert forall|k: int| n + 1 <= k < m implies is_name_char(#[trigger] s[k]) by {
        assert(s[k] == b[k - n - 1]);
    }
    lemma_run(s, n + 1, n + 1, m);
    assert(s.subrange(n + 1, m) =~= b);
    assert(template::parts_from(s, n + 1, n + 1, None) == seq![b]);
    assert(template::parts_from(s, n, 0, None) == seq![a] + seq![b]);
    assert(seq![a] + seq![b] =~= seq![a, b]);
}

proof fn lemma_plain_path(p: Seq<char>, f: FrameView)
    requires
        p.len() > 0,
        is_name_char(p[0]),
        p != "this"@,
        !text::stands_at(p, 0, "this."@),
    ensures
        template::resolved(p, f) == template::walked(f.context, template::parts(p), 0),
{
    reveal_strlit("../");
    reveal_strlit(".");
    reveal_strlit("this.");
    reveal_strlit("@root");
    reveal_strlit("@root.");
    if p.len() >= 3 && text::stands_at(p, 0, "../"@) {
        assert(p.subrange(0, 3)[0] == p[0]);
    }
    assert("."@[0] == '.');
    assert("@root"@[0] == '@');
    if text::stands_at(p, 0, "@root."@) {
        assert(p.subrange(0, 6)[0] == p[0]);
        assert("@root."@[0] == '@');
    }
}

proof fn lemma_name_value(a: Seq<char>, f: FrameView)
    requires
        is_name(a),
    ensures
        template::resolved(a, f) == template::property_of(f.context, a),
{
    reveal_strlit("this.");
    if text::stands_at(a, 0, "this."@) {
        assert(a.subrange(0, 5)[4] == a[4]);
        assert(is_name_char(a[4]));
        assert("this."@[4] == '.');
    }
    assert(is_name_char(a[0]));
    lemma_plain_path(a, f);
    lemma_one_part(a);
    reveal_with_fuel(template::walked, 2);
    assert(seq![a][0] == a);
}

proof fn lemma_path_value(a: Seq<char>, b: Seq<char>, f: FrameView)
    requires
        is_name(a),
        is_name(b),
    ensures
        template::resolved(dotted(a, b), f) == template::property_of(
            template::property_of(f.context, a),
            b,
        ),
{
    let p = dotted(a, b);
    reveal_strlit("this.");
    reveal_strlit("this");
    assert(p[0] == a[0]);
    assert(is_name_char(a[0]));
    if text::stands_at(p, 0, "this."@) {
        let head = p.subrange(0, 5);
        assert(head == "this."@);
        let n = a.len() as int;
        if n < 4 {
            assert(p[n] == '.');
            assert(head[n] == p[n]);
        } else if n > 4 {
            assert(head[4] == p[4]);
            assert(p[4] == a[4]);
            assert(is_name_char(a[4]));
        } else {
            assert forall|k: int| 0 <= k < 4 implies a[k] == "this"@[k] by {
                assert(head[k] == p[k]);
                assert(p[k] == a[k]);
            }
            assert(a =~= "this"@);
        }
    }
    if p == "this"@ {
        assert(p[a.len() as int] == '.');
        assert("this"@.len() == 4);
        assert("this"@[0] == 't' && "this"@[1] == 'h' && "this"@[2] == 'i' && "this"@[3] == 's');
    }
    lemma_plain_path(p, f);
    lemma_two_parts(a, b);
    reveal_with_fuel(template::walked, 3);
    assert(seq![a, b][0] == a && seq![a, b][1] == b);
}

/// A name stands for the member of the context that goes by it, and for nothing where there is
/// none; a path of names leads from member to member. What a list answers to is its places and
/// its length.
pub proof fn law_names_lead_to_members(
    a: Seq<char>,
    b: Seq<char>,
    o: Entries,
    f: FrameView,
)
    requires
        is_name(a),
        is_name(b),
        a != "__proto__"@ && a != "prototype"@ && a != "constructor"@,
        f.context == JsonView::Object(o),
    ensures
        template::resolved(a, f) == (match json::lookup(o, a) {
            Some(v) => v,
            None => JsonView::Null,
        }),
        template::resolved(dotted(a, b), f) == template::resolved(
            b,
            FrameView { context: template::resolved(a, f), ..f },
        ),
{
    lemma_name_value(a, f);
    lemma_path_value(a, b, f);
    lemma_name_value(b, FrameView { context: template::resolved(a, f), ..f });
}

/// `this` and `.` are the context, `../` is one step up, and `@root` is where the template started.
pub proof fn law_words_for_contexts(path: Seq<char>, f: FrameView)
    ensures
        template::resolved("this"@, f) == f.context,
        template::resolved("."@, f) == f.context,
        template::resolved("@root"@, f) == f.root,
        f.parent matches Some(p) ==> template::resolved("../"@ + path, f) == template::resolved(
            path,
            *p,
        ),
{
    reveal_strlit("../");
    reveal_strlit(".");
    reveal_strlit("this");
    reveal_strlit("@root");
    reveal_strlit("this.");
    assert("this"@.len() == 4 && "."@.len() == 1 && "@root"@.len() == 5);
    if text::stands_at("this"@, 0, "../"@) {
        assert("this"@.subrange(0, 3)[0] == "this"@[0]);
    }
    if text::stands_at("@root"@, 0, "../"@) {
        assert("@root"@.subrange(0, 3)[0] == "@root"@[0]);
    }
    if text::stands_at("@root"@, 0, "this."@) {
        assert("@root"@.subrange(0, 5)[0] == "@root"@[0]);
    }
    assert("@root"@[0] == '@' && "this"@[0] == 't' && "."@[0] == '.');
    let p = "../"@ + path;
    assert("../"@.len() == 3);
    assert(p.subrange(0, 3) =~= "../"@);
    assert(p.skip(3) =~= path);
}

/// `{{#with a}}{{b}}{{/with}}` is `{{a.b}}`, for every two names.
pub proof fn law_with_is_a_step_of_a_path(
    eng: EngineView,
    a: Seq<char>,
    b: Seq<char>,
    escaped: bool,
    f: FrameView,
    depth: nat,
)
    requires
        is_name(a),
        is_name(b),
        is_free(eng, "with"@),
        is_free(eng, b),
        is_free(eng, dotted(a, b)),
        depth < MAX_NESTING,
        !is_nothing(template::resolved(a, f)),
    ensures
        template::piece(
            eng,
            NodeView::Block {
                call: of_one("with"@, ExprView::Path(a)),
                body: seq![NodeView::Output { call: bare(b), escaped }],
                inverse: Seq::empty(),
            },
            f,
            depth,
        ) == template::piece(eng, NodeView::Output { call: bare(dotted(a, b)), escaped }, f, depth),
{
    let v = template::resolved(a, f);
    let inner = NodeView::Output { call: bare(b), escaped };
    let body = seq![inner];
    let g = within(f, v, f.data);
    lemma_name_value(a, f);
    lemma_path_value(a, b, f);
    lemma_name_value(b, g);
    law_with_changes_the_context(eng, ExprView::Path(a), v, body, Seq::empty(), f, depth);
    law_names_are_written_out(eng, b, escaped, g, depth + 1);
    law_names_are_written_out(eng, dotted(a, b), escaped, f, depth);
    let t = template::piece(eng, inner, g, depth + 1)->Ok_0;
    assert(body[0] == inner);
    law_pieces_are_rendered_in_order(eng, body, g, depth + 1, seq![t]);
    assert(seq![t].skip(1) =~= Seq::empty());
    assert(in_a_row(seq![t].skip(1)) =~= Seq::empty());
    assert(in_a_row(seq![t]) =~= t);
}

/// `{{name}}` writes out the value of the name: nothing for nothing, and every other value as
/// text, with what HTML reads as markup escaped unless the tag or the engine asks not to.
pub proof fn law_names_are_written_out(
    eng: EngineView,
    name: Seq<char>,
    escaped: bool,
    f: FrameView,
    depth: nat,
)
    requires
        is_free(eng, name),
    ensures
        ({
            let v = template::resolved(name, f);
            let t = js::js_text(v);
            template::piece(eng, NodeView::Output { call: bare(name), escaped }, f, depth) == Ok::<
                Seq<char>,
                Seq<char>,
            >(
                if v is Null {
                    Seq::empty()
                } else if escaped && !eng.no_escape {
                    template::escaped(t)
                } else {
                    t
                },
            )
        }),
{
    lemma_free(eng, name);
    let call = bare(name);
    let none = Seq::<JsonView>::empty();
    assert(template::arguments(eng, call, 0, f, depth) == Ok::<Seq<JsonView>, Seq<char>>(none));
    assert(template::named_arguments(eng, call, 0, f, depth) == Ok::<Entries, Seq<char>>(
        Seq::empty(),
    ));
}

/// Text that HTML does not read as markup is escaped to itself, and texts are escaped one after
/// the other; each of the seven characters that it does read has its own entity.
pub proof fn law_what_is_escaped(s: Seq<char>, t: Seq<char>)
    ensures
        template::escaped(s + t) == template::escaped(s) + template::escaped(t),
        (forall|i: int|
            0 <= i < s.len() ==> !"&<>\"'`="@.contains(#[trigger] s[i])) ==> template::escaped(s)
            == s,
        template::escaped(seq!['&']) == "&amp;"@,
        template::escaped(seq!['<']) == "&lt;"@,
        template::escaped(seq!['>']) == "&gt;"@,
        template::escaped(seq!['"']) == "&quot;"@,
        template::escaped(seq!['\'']) == "&#x27;"@,
        template::escaped(seq!['`']) == "&#x60;"@,
        template::escaped(seq!['=']) == "&#x3D;"@,
{
    lemma_escaped_twice(s, t);
    lemma_not_escaped(s);
    lemma_one_escaped('&');
    lemma_one_escaped('<');
    lemma_one_escaped('>');
    lemma_one_escaped('"');
    lemma_one_escaped('\'');
    lemma_one_escaped('`');
    lemma_one_escaped('=');
}

proof fn lemma_one_escaped(c: char)
    ensures
        template::escaped(seq![c]) == template::entity(c),
{
    let s = seq![c];
    assert(s.drop_last() =~= Seq::empty());
    assert(template::escaped(s.drop_last()) =~= Seq::empty());
    assert(template::escaped(s) =~= template::entity(c));
}

proof fn lemma_escaped_twice(s: Seq<char>, t: Seq<char>)
    ensures
        template::escaped(s + t) == template::escaped(s) + template::escaped(t),
    decreases t.len(),
{
    if t.len() == 0 {
        assert(s + t =~= s);
        assert(template::escaped(s) + template::escaped(t) =~= template::escaped(s));
    } else {
        lemma_escaped_twice(s, t.drop_last());
        assert((s + t).drop_last() =~= s + t.drop_last());
        assert(template::escaped(s + t) =~= template::escaped(s) + template::escaped(t));
    }
}

proof fn lemma_not_escaped(s: Seq<char>)
    ensures
        (forall|i: int|
            0 <= i < s.len() ==> !"&<>\"'`="@.contains(#[trigger] s[i])) ==> template::escaped(s)
            == s,
    decreases s.len(),
{
    reveal_strlit("&<>\"'`=");
    let marks = "&<>\"'`="@;
    assert(marks[0] == '&' && marks[1] == '<' && marks[2] == '>' && marks[3] == '"');
    assert(marks[4] == '\'' && marks[5] == '`' && marks[6] == '=');
    if s.len() > 0 {
        lemma_not_escaped(s.drop_last());
        if forall|i: int| 0 <= i < s.len() ==> !marks.contains(#[trigger] s[i]) {
            assert(!marks.contains(s[s.len() - 1]));
            assert forall|i: int| 0 <= i < s.drop_last().len() implies !marks.contains(
                #[trigger] s.drop_last()[i],
            ) by {
                assert(!marks.contains(s[i]));
            }
            assert(template::escaped(s) =~= s);
        }
    }
}

// ------------------------------------------------------------------ helpers

/// The value of an argument; nothing where there is none.
pub open spec fn argument(h: HelperCallView, i: int) -> JsonView {
    if 0 <= i < h.args.len() {
        h.args[i]
    } else {
        JsonView::Null
    }
}

/// A value that an expression takes for false. An empty list is not one.
pub open spec fn is_false(v: JsonView) -> bool {
    !(v is Array) && is_nothing(v)
}

/// What the helpers that only compute give back: the first value that is not false, its negation,
/// a length, a membership, a list written out with a separator, or a value as JSON text.
pub proof fn law_what_helpers_compute(h: HelperCallView)
    ensures
        ({
            let a = argument(h, 0);
            let b = argument(h, 1);
            &&& template::plan(Helper::Default, h) == Ok::<PlanView, Seq<char>>(
                PlanView::Ready(
                    OutputView::Value(
                        if is_false(a) {
                            b
                        } else {
                            a
                        },
                    ),
                ),
            )
            &&& template::plan(Helper::Not, h) == Ok::<PlanView, Seq<char>>(
                PlanView::Ready(OutputView::Value(JsonView::Bool(is_false(a)))),
            )
            &&& a matches JsonView::Array(items) ==> template::plan(Helper::Len, h) == Ok::<
                PlanView,
                Seq<char>,
            >(
                PlanView::Ready(
                    OutputView::Value(
                        JsonView::Number(NumberView::PosInt(items.len() as u64)),
                    ),
                ),
            )
            &&& a matches JsonView::Array(items) ==> template::plan(Helper::Includes, h) == Ok::<
                PlanView,
                Seq<char>,
            >(
                PlanView::Ready(
                    OutputView::Value(
                        JsonView::Bool(
                            exists|i: int|
                                0 <= i < items.len() && js::identical(#[trigger] items[i], b),
                        ),
                    ),
                ),
            )
            &&& template::plan(Helper::IfAny, h) == Ok::<PlanView, Seq<char>>(
                PlanView::Once {
                    inverse: forall|i: int|
                        0 <= i < h.args.len() ==> is_false(#[trigger] h.args[i]),
                },
            )
            &&& template::plan(Helper::IfAll, h) == Ok::<PlanView, Seq<char>>(
                PlanView::Once {
                    inverse: exists|i: int|
                        0 <= i < h.args.len() && is_false(#[trigger] h.args[i]),
                },
            )
            &&& !(a is Array) ==> template::plan(Helper::Join, h) == Ok::<PlanView, Seq<char>>(
                PlanView::Ready(OutputView::Value(JsonView::String(Seq::empty()))),
            )
        }),
{
    reveal(template::plan);
    let a = argument(h, 0);
    assert(js::is_truthy(a) == !is_false(a));
    assert forall|i: int| 0 <= i < h.args.len() implies js::is_truthy(#[trigger] h.args[i])
        == !is_false(h.args[i]) by {}
    assert(template::some_truthy(h.args) == !(forall|i: int|
        0 <= i < h.args.len() ==> is_false(#[trigger] h.args[i])));
    assert(template::all_truthy(h.args) == !(exists|i: int|
        0 <= i < h.args.len() && is_false(#[trigger] h.args[i])));
}

/// `when` renders its body where the comparison holds: equality, its negation, and the order of
/// the two values.
pub proof fn law_when_compares(a: JsonView, b: JsonView)
    ensures
        template::relation(a, "=="@, b) == Some(js::identical(a, b)),
        template::relation(a, "==="@, b) == Some(js::identical(a, b)),
        template::relation(a, "!="@, b) == Some(!js::identical(a, b)),
        template::relation(a, "!=="@, b) == Some(!js::identical(a, b)),
        template::relation(a, ">"@, b) == Some(js::value_order(a, b) == Some(js::Order::Greater)),
        template::relation(a, "<"@, b) == Some(js::value_order(a, b) == Some(js::Order::Less)),
        template::relation(a, ">="@, b) == Some(
            js::value_order(a, b) == Some(js::Order::Greater) || js::value_order(a, b) == Some(
                js::Order::Equal,
            ),
        ),
        template::relation(a, "<="@, b) == Some(
            js::value_order(a, b) == Some(js::Order::Less) || js::value_order(a, b) == Some(
                js::Order::Equal,
            ),
        ),
{
    reveal_strlit("==");
    reveal_strlit("===");
    reveal_strlit("!=");
    reveal_strlit("!==");
    reveal_strlit(">");
    reveal_strlit("<");
    reveal_strlit(">=");
    reveal_strlit("<=");
    assert("=="@.len() == 2 && "==="@.len() == 3 && "!="@.len() == 2 && "!=="@.len() == 3);
    assert(">"@.len() == 1 && "<"@.len() == 1 && ">="@.len() == 2 && "<="@.len() == 2);
    assert("=="@[0] == '=' && "!="@[0] == '!' && ">="@[0] == '>' && "<="@[0] == '<');
    assert("==="@[0] == '=' && "!=="@[0] == '!' && ">"@[0] == '>' && "<"@[0] == '<');
}

/// A block that a helper renders once is its body or its other part, rendered where it stands, and
/// the body is what the helper finishes.
pub proof fn law_helpers_render_their_block(
    eng: EngineView,
    helper: Helper,
    h: HelperCallView,
    call: CallView,
    body: Seq<NodeView>,
    inverse: Seq<NodeView>,
    f: FrameView,
    depth: nat,
    other: bool,
    t: Seq<char>,
)
    requires
        template::plan(helper, h) == Ok::<PlanView, Seq<char>>(PlanView::Once { inverse: other }),
        depth < MAX_NESTING,
        whole(
            eng,
            if other {
                inverse
            } else {
                body
            },
            within(f, f.context, f.data),
            depth + 1,
        ) == Ok::<Seq<char>, Seq<char>>(t),
        helper is When || helper is IfAny || helper is IfAll || helper is Has,
    ensures
        template::helped(eng, helper, h, call, body, inverse, f, depth) == Ok::<
            OutputView,
            Seq<char>,
        >(OutputView::Value(JsonView::String(t))),
{
    reveal(template::finished);
    assert(seq![t][0] == t);
}

/// `{{> name}}` is the partial of that name, rendered on the context where it stands, with the
/// blocks and names of a fresh engine; a partial that is not there is an error.
pub proof fn law_partials_are_rendered_in_place(
    eng: EngineView,
    name: Seq<char>,
    nodes: Seq<NodeView>,
    o: Entries,
    f: FrameView,
    depth: nat,
)
    requires
        f.context == JsonView::Object(o),
        depth < MAX_NESTING,
    ensures
        (template::under(eng.partials, name) matches Some(source)
            && crate::template_parse::template_of(source) == Ok::<Seq<NodeView>, Seq<char>>(nodes))
            ==> template::piece(eng, NodeView::Partial(bare(name)), f, depth) == whole(
            EngineView {
                helpers: Seq::empty(),
                partials: Seq::empty(),
                no_escape: eng.no_escape,
            },
            nodes,
            FrameView {
                context: JsonView::Object(o),
                parent: None,
                root: JsonView::Object(o),
                data: Seq::empty(),
            },
            depth + 1,
        ),
        template::under(eng.partials, name) is None ==> template::piece(
            eng,
            NodeView::Partial(bare(name)),
            f,
            depth,
        ) is Err,
{
    let call = bare(name);
    assert(template::named_arguments(eng, call, 0, f, depth) == Ok::<Entries, Seq<char>>(
        Seq::empty(),
    ));
    assert(template::extended(o, Seq::empty()) == o);
}

/// A template is rendered on its context, which is also its root; without one on an empty object.
pub proof fn law_a_template_starts_at_its_root(
    eng: EngineView,
    nodes: Seq<NodeView>,
    context: JsonView,
)
    ensures
        ({
            let v = if context is Null {
                JsonView::Object(Seq::empty())
            } else {
                context
            };
            template::template_text(eng, nodes, context) == whole(
                eng,
                nodes,
                FrameView { context: v, parent: None, root: v, data: Seq::empty() },
                0,
            )
        }),
{
}

/// `this` is the context, before a dot too; a place in a list is written without zeros before it, and
/// `length` counts what a list or a text holds.
pub proof fn law_what_paths_reach(
    f: FrameView,
    items: Seq<JsonView>,
    s: Seq<char>,
    key: Seq<char>,
    path: Seq<char>,
)
    ensures
        path.len() > 0 && path[0] != '@' && !text::stands_at(path, 0, "this."@) && !template::is_this(
            "this."@ + path,
        ) && !template::is_this(path) ==> template::resolved_in("this."@ + path, f)
            == template::resolved_in(path, f),
        template::length_of(JsonView::Array(items)) == JsonView::Number(
            NumberView::PosInt(items.len() as u64),
        ),
        template::length_of(JsonView::String(s)) == JsonView::Number(
            NumberView::PosInt(js::utf16(s).len() as u64),
        ),
        key.len() > 1 && key[0] == '0' && key != "length"@ ==> template::property_of(
            JsonView::Array(items),
            key,
        ) == JsonView::Null,
        text::is_digits(key) && key.len() > 0 && (key.len() == 1 || key[0] != '0') && key
            != "length"@ && text::digits_value(key) < items.len() ==> template::property_of(
            JsonView::Array(items),
            key,
        ) == items[text::digits_value(key)],
{
    reveal_strlit("this.");
    reveal_strlit("@root");
    reveal_strlit("@root.");
    let p = "this."@ + path;
    assert(p.subrange(0, 5) =~= "this."@);
    assert(p.skip(5) =~= path);
}

} // verus!
