//! What the scalars, lists and mappings of frontmatter are read as.
use crate::js;
use crate::json;
use crate::json::{Entries, JsonView, NumberView};
use crate::number;
use crate::text;
use crate::value_laws;
use crate::yaml;
use crate::yaml::{YamlBuilderView, YamlEventView, YamlNodeView, YamlTagView, EXACT_BOUND};
use vstd::prelude::*;

verus! {

/// A quoted scalar, and one that is tagged as a text, is a text, whatever it spells.
pub proof fn law_quoted_scalars_are_texts(v: Seq<char>, handle: Seq<char>)
    ensures
        yaml::scalar_value(v, false, None) == JsonView::String(v),
        yaml::scalar_value(v, true, Some(YamlTagView { handle, suffix: "str"@ }))
            == JsonView::String(v),
        yaml::scalar_value(v, true, None) == yaml::plain_value(v),
{
}

/// The words for nothing, for true and for false are what they stand for.
pub proof fn law_what_words_stand_for()
    ensures
        yaml::plain_value("null"@) is Null,
        yaml::plain_value("~"@) is Null,
        yaml::plain_value(Seq::empty()) is Null,
        yaml::plain_value("true"@) == JsonView::Bool(true),
        yaml::plain_value("True"@) == JsonView::Bool(true),
        yaml::plain_value("TRUE"@) == JsonView::Bool(true),
        yaml::plain_value("false"@) == JsonView::Bool(false),
        yaml::plain_value("False"@) == JsonView::Bool(false),
        yaml::plain_value("FALSE"@) == JsonView::Bool(false),
{
    reveal_strlit("null");
    reveal_strlit("Null");
    reveal_strlit("NULL");
    reveal_strlit("~");
    reveal_strlit("true");
    reveal_strlit("True");
    reveal_strlit("TRUE");
    reveal_strlit("false");
    reveal_strlit("False");
    reveal_strlit("FALSE");
    assert("~"@.len() == 1 && "null"@.len() == 4 && "Null"@.len() == 4 && "NULL"@.len() == 4);
    assert("true"@.len() == 4 && "true"@[0] == 't' && "True"@.len() == 4 && "True"@[0] == 'T');
    assert("TRUE"@.len() == 4 && "TRUE"@[0] == 'T');
    assert("null"@[0] == 'n' && "Null"@[0] == 'N' && "NULL"@[0] == 'N');
    assert("false"@.len() == 5 && "False"@.len() == 5 && "FALSE"@.len() == 5);
}

/// No word of the schema starts with a digit.
proof fn lemma_no_word(v: Seq<char>)
    requires
        v.len() > 0,
        text::is_digit(v[0]),
    ensures
        !yaml::is_null_word(v),
        !yaml::is_true_word(v),
        !yaml::is_false_word(v),
        !yaml::is_infinity_word(v),
        !yaml::is_neg_infinity_word(v),
        !yaml::is_nan_word(v),
{
    reveal_strlit("~");
    reveal_strlit("null");
    reveal_strlit("Null");
    reveal_strlit("NULL");
    reveal_strlit("true");
    reveal_strlit("True");
    reveal_strlit("TRUE");
    reveal_strlit("false");
    reveal_strlit("False");
    reveal_strlit("FALSE");
    reveal_strlit(".inf");
    reveal_strlit(".Inf");
    reveal_strlit(".INF");
    reveal_strlit("+.inf");
    reveal_strlit("+.Inf");
    reveal_strlit("+.INF");
    reveal_strlit("-.inf");
    reveal_strlit("-.Inf");
    reveal_strlit("-.INF");
    reveal_strlit(".nan");
    reveal_strlit(".NaN");
    reveal_strlit(".NAN");
    assert("~"@[0] == '~' && "null"@[0] == 'n' && "Null"@[0] == 'N' && "NULL"@[0] == 'N');
    assert("true"@[0] == 't' && "True"@[0] == 'T' && "TRUE"@[0] == 'T');
    assert("false"@[0] == 'f' && "False"@[0] == 'F' && "FALSE"@[0] == 'F');
    assert(".inf"@[0] == '.' && ".Inf"@[0] == '.' && ".INF"@[0] == '.');
    assert("+.inf"@[0] == '+' && "+.Inf"@[0] == '+' && "+.INF"@[0] == '+');
    assert("-.inf"@[0] == '-' && "-.Inf"@[0] == '-' && "-.INF"@[0] == '-');
    assert(".nan"@[0] == '.' && ".NaN"@[0] == '.' && ".NAN"@[0] == '.');
}

/// Digits are the number that they spell.
pub proof fn law_digits_are_numbers(n: u64)
    requires
        n < EXACT_BOUND,
    ensures
        yaml::plain_value(text::decimal(n as nat)) == JsonView::Number(NumberView::PosInt(n)),
{
    let v = text::decimal(n as nat);
    value_laws::law_numbers_read_back(n as nat);
    assert(text::is_digit(v[0]));
    lemma_no_word(v);
    reveal_strlit("0x");
    reveal_strlit("0o");
    assert("0x"@.len() == 2 && "0x"@[1] == 'x' && "0o"@.len() == 2 && "0o"@[1] == 'o');
    if text::stands_at(v, 0, "0x"@) {
        assert(v.subrange(0, 2)[1] == v[1]);
        assert(text::is_digit(v[1]));
    }
    if text::stands_at(v, 0, "0o"@) {
        assert(v.subrange(0, 2)[1] == v[1]);
        assert(text::is_digit(v[1]));
    }
    assert(yaml::unsigned(v) == v);
}

/// A list takes its values in order; a mapping takes a name and then its value; a merge key brings
/// the members that are not there yet.
pub proof fn law_what_a_node_takes(
    items: Seq<JsonView>,
    o: Entries,
    key: JsonView,
    value: JsonView,
    anchor: usize,
)
    ensures
        yaml::taken(YamlNodeView::Items(items, anchor), value) == YamlNodeView::Items(
            items.push(value),
            anchor,
        ),
        yaml::taken(YamlNodeView::Members(o, None, anchor), value) == YamlNodeView::Members(
            o,
            Some(value),
            anchor,
        ),
        key != JsonView::String("<<"@) ==> yaml::taken(
            YamlNodeView::Members(o, Some(key), anchor),
            value,
        ) == YamlNodeView::Members(
            json::with_member(
                o,
                if key is Null {
                    "null"@
                } else {
                    js::js_text(key)
                },
                value,
            ),
            None,
            anchor,
        ),
        value matches JsonView::Object(m) ==> yaml::taken(
            YamlNodeView::Members(o, Some(JsonView::String("<<"@)), anchor),
            value,
        ) == YamlNodeView::Members(yaml::filled(o, m), None, anchor),
{
}

/// A value goes into the innermost open list or mapping, or is a document where none is open; an
/// anchor remembers it.
pub proof fn law_where_a_value_goes(b: YamlBuilderView, value: JsonView, anchor: usize)
    ensures
        ({
            let n = yaml::pushed(b, value, anchor);
            &&& b.stack.len() == 0 ==> n.docs == b.docs.push(value) && n.stack == b.stack
            &&& b.stack.len() > 0 ==> n.docs == b.docs && n.stack.len() == b.stack.len()
                && n.stack.drop_last() == b.stack.drop_last() && n.stack.last() == yaml::taken(
                b.stack.last(),
                value,
            )
            &&& anchor > 0 ==> yaml::anchored(n.anchors, anchor) == value
            &&& anchor == 0 ==> n.anchors == b.anchors
        }),
{
    let n = yaml::pushed(b, value, anchor);
    if b.stack.len() > 0 {
        assert(n.stack.drop_last() =~= b.stack.drop_last());
    }
}

/// An alias stands for the value that its anchor had last; later anchors of other names do not
/// change it.
pub proof fn law_what_an_alias_stands_for(
    b: YamlBuilderView,
    id: usize,
    other: usize,
    value: JsonView,
)
    requires
        other != id,
    ensures
        yaml::stepped(b, YamlEventView::Alias(id)) == yaml::pushed(
            b,
            yaml::anchored(b.anchors, id),
            0,
        ),
        yaml::anchored(b.anchors.push((id, value)), id) == value,
        yaml::anchored(b.anchors.push((other, value)), id) == yaml::anchored(b.anchors, id),
{
    assert(b.anchors.push((other, value)).drop_last() =~= b.anchors);
}

/// A list that ends is an array of what it took, a mapping an object of its members; both go where
/// they were opened.
pub proof fn law_what_a_closed_node_is(
    b: YamlBuilderView,
    items: Seq<JsonView>,
    o: Entries,
    anchor: usize,
)
    ensures
        yaml::stepped(
            YamlBuilderView { stack: b.stack.push(YamlNodeView::Items(items, anchor)), ..b },
            YamlEventView::SequenceEnd,
        ) == yaml::pushed(b, JsonView::Array(items), anchor),
        yaml::stepped(
            YamlBuilderView { stack: b.stack.push(YamlNodeView::Members(o, None, anchor)), ..b },
            YamlEventView::MappingEnd,
        ) == yaml::pushed(b, JsonView::Object(js::ordered(o)), anchor),
        yaml::stepped(b, YamlEventView::SequenceStart(anchor)).stack == b.stack.push(
            YamlNodeView::Items(Seq::empty(), anchor),
        ),
        yaml::stepped(b, YamlEventView::MappingStart(anchor)).stack == b.stack.push(
            YamlNodeView::Members(Seq::empty(), None, anchor),
        ),
        yaml::stepped(b, YamlEventView::Other) == b,
{
    let x = YamlNodeView::Items(items, anchor);
    let y = YamlNodeView::Members(o, None, anchor);
    assert(b.stack.push(x).drop_last() =~= b.stack);
    assert(b.stack.push(y).drop_last() =~= b.stack);
}

/// A text with one document is its value; one with none is null, one with several their list.
pub proof fn law_what_documents_are(docs: Seq<JsonView>)
    ensures
        docs.len() == 0 ==> yaml::stream_value(docs) is Null,
        docs.len() == 1 ==> yaml::stream_value(docs) == docs[0],
        docs.len() > 1 ==> yaml::stream_value(docs) == JsonView::Array(docs),
{
}

} // verus!
