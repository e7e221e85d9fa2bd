//! How a template is read: its tags, its blocks and the arguments in them.
use crate::json::JsonView;
use crate::template_parse;
use crate::template_parse::{
    CallView, ExprView, NodeView, OpenView, ParsingView, ScanView, MAX_NESTING,
};
use crate::text;
use crate::text::Space;
use vstd::prelude::*;

verus! {

/// A piece goes to the end of the part that is being read of the innermost open block, or to the
/// end of the template where none is open; nothing else changes.
pub proof fn law_where_a_piece_goes(st: ParsingView, node: NodeView)
    ensures
        ({
            let n = template_parse::with_node(st, node);
            &&& st.stack.len() == 0 ==> n.root == st.root.push(node) && n.stack == st.stack
            &&& st.stack.len() > 0 ==> {
                let a = st.stack.last();
                let b = n.stack.last();
                &&& n.root == st.root
                &&& n.stack.len() == st.stack.len() && n.stack.drop_last() == st.stack.drop_last()
                &&& b.call == a.call && b.in_inverse == a.in_inverse && b.inverted == a.inverted
                    && b.chained == a.chained
                &&& a.in_inverse ==> b.inverse == a.inverse.push(node) && b.body == a.body
                &&& !a.in_inverse ==> b.body == a.body.push(node) && b.inverse == a.inverse
            }
        }),
{
    let n = template_parse::with_node(st, node);
    if st.stack.len() > 0 {
        assert(n.stack.drop_last() =~= st.stack.drop_last());
    }
}

/// A block that closes holds the pieces between its tags: those before its `else` in its body,
/// those behind it in its other part; the other way round where it was opened as inverted.
pub proof fn law_what_a_block_holds(
    st: ParsingView,
    call: CallView,
    first: Seq<NodeView>,
    second: Seq<NodeView>,
    in_inverse: bool,
    inverted: bool,
    chained: bool,
)
    ensures
        template_parse::with_closed(
            ParsingView {
                stack: st.stack.push(
                    OpenView { call, body: first, inverse: second, in_inverse, inverted, chained },
                ),
                ..st
            },
        ) == template_parse::with_node(
            st,
            if inverted {
                NodeView::Block { call, body: second, inverse: first }
            } else {
                NodeView::Block { call, body: first, inverse: second }
            },
        ),
{
    let open = OpenView { call, body: first, inverse: second, in_inverse, inverted, chained };
    assert(st.stack.push(open).drop_last() =~= st.stack);
}

/// What the tags of a template mean: a comment nothing; a plain one an output, escaped unless it
/// has three braces or an ampersand; one with an angle a partial; one with a hash or a caret the
/// start of a block; one with a slash its end, where it has its name; an `else` its other part.
pub proof fn law_what_tags_mean(st: ParsingView, raw: Seq<char>, triple: bool)
    ensures
        ({
            let next = template_parse::with_tag(st, raw, triple);
            let is_else = raw == "else"@ || text::stands_at(raw, 0, "else "@);
            &&& raw.len() == 0 || raw[0] == '!' ==> next == Ok::<ParsingView, Seq<char>>(st)
            &&& is_else && st.stack.len() == 0 ==> next is Err
            &&& raw == "else"@ && st.stack.len() > 0 ==> (next matches Ok(n) && n.root == st.root
                && n.stack.len() == st.stack.len() && n.stack.last() == (OpenView {
                in_inverse: true,
                ..st.stack.last()
            }))
            &&& raw.len() > 0 && (raw[0] == '#' || raw[0] == '^') ==> {
                let call = template_parse::call_of(raw.skip(1), 0);
                &&& next is Ok <==> call is Ok && st.stack.len() < MAX_NESTING
                &&& next matches Ok(n) ==> n.root == st.root && n.stack == st.stack.push(
                    OpenView {
                        call: call->Ok_0,
                        body: Seq::empty(),
                        inverse: Seq::empty(),
                        in_inverse: false,
                        inverted: raw[0] == '^',
                        chained: false,
                    },
                )
            }
            &&& raw.len() > 0 && raw[0] == '/' && st.stack.len() > 0 && !st.stack.last().chained
                ==> {
                let fits = st.stack.last().call.name == text::trim(Space::Js, raw.skip(1));
                &&& next is Ok <==> fits
                &&& next matches Ok(n) ==> n == template_parse::with_closed(st)
            }
            &&& raw.len() > 0 && raw[0] == '/' && st.stack.len() == 0 ==> next is Err
            &&& raw.len() > 0 && raw[0] == '>' ==> (match template_parse::call_of(raw.skip(1), 0) {
                Ok(call) => next == Ok::<ParsingView, Seq<char>>(
                    template_parse::with_node(st, NodeView::Partial(call)),
                ),
                Err(e) => next == Err::<ParsingView, Seq<char>>(e),
            })
            &&& raw.len() > 0 && raw[0] == '&' ==> (match template_parse::call_of(raw.skip(1), 0) {
                Ok(call) => next == Ok::<ParsingView, Seq<char>>(
                    template_parse::with_node(st, NodeView::Output { call, escaped: false }),
                ),
                Err(e) => next == Err::<ParsingView, Seq<char>>(e),
            })
            &&& raw.len() > 0 && !is_else && raw[0] != '!' && raw[0] != '#' && raw[0] != '^'
                && raw[0] != '/' && raw[0] != '>' && raw[0] != '&' ==> (
            match template_parse::call_of(raw, 0) {
                Ok(call) => next == Ok::<ParsingView, Seq<char>>(
                    template_parse::with_node(st, NodeView::Output { call, escaped: !triple }),
                ),
                Err(e) => next == Err::<ParsingView, Seq<char>>(e),
            })
        }),
{
    reveal_strlit("else");
    reveal_strlit("else ");
    assert("else"@.len() == 4 && "else"@[0] == 'e');
    assert("else "@.len() == 5 && "else "@[0] == 'e');
    if text::stands_at(raw, 0, "else "@) {
        assert(raw.subrange(0, 5)[0] == raw[0]);
    }
}

/// A chained block closes with the one that it belongs to.
pub proof fn law_chains_close_together(st: ParsingView)
    requires
        st.stack.len() > 0,
        st.stack.last().chained,
    ensures
        template_parse::with_chain_closed(st) == template_parse::with_chain_closed(
            template_parse::with_closed(st),
        ),
        st.stack.len() > 1 ==> template_parse::with_closed(st).stack.len() == st.stack.len() - 1,
{
}

/// The words for truth and for nothing are literals, and so is a quoted text; a name is a path.
pub proof fn law_what_arguments_are(inner: Seq<char>, depth: nat)
    requires
        forall|i: int| 0 <= i < inner.len() ==> (#[trigger] inner[i]) != '\\' && inner[i] != '"',
    ensures
        template_parse::atom("true"@, depth) == Ok::<ExprView, Seq<char>>(
            ExprView::Literal(JsonView::Bool(true)),
        ),
        template_parse::atom("false"@, depth) == Ok::<ExprView, Seq<char>>(
            ExprView::Literal(JsonView::Bool(false)),
        ),
        template_parse::atom("null"@, depth) == Ok::<ExprView, Seq<char>>(
            ExprView::Literal(JsonView::Null),
        ),
        template_parse::atom("undefined"@, depth) == Ok::<ExprView, Seq<char>>(
            ExprView::Literal(JsonView::Null),
        ),
        template_parse::atom(seq!['"'] + inner + seq!['"'], depth) == Ok::<ExprView, Seq<char>>(
            ExprView::Literal(JsonView::String(inner)),
        ),
{
    reveal_strlit("true");
    reveal_strlit("false");
    reveal_strlit("null");
    reveal_strlit("undefined");
    assert("true"@.len() == 4 && "true"@[0] == 't');
    assert("false"@.len() == 5 && "false"@[0] == 'f');
    assert("null"@.len() == 4 && "null"@[0] == 'n');
    assert("undefined"@.len() == 9 && "undefined"@[0] == 'u');
    let t = seq!['"'] + inner + seq!['"'];
    assert(t[0] == '"' && t.last() == '"');
    assert forall|i: int| 1 <= i < t.len() - 1 implies (#[trigger] t[i]) != '\\' by {
        assert(t[i] == inner[i - 1]);
    }
    lemma_unquoted(t, 1, t.len() - 1);
    assert(t.subrange(1, t.len() - 1) =~= inner);
}

proof fn lemma_unquoted(s: Seq<char>, i: int, to: int)
    requires
        0 <= i <= to <= s.len(),
        forall|k: int| i <= k < to ==> (#[trigger] s[k]) != '\\',
    ensures
        template_parse::unquoted_from(s, s[0], i, to) == s.subrange(i, to),
    decreases to - i,
{
    if i < to {
        lemma_unquoted(s, i + 1, to);
        assert(s.subrange(i, to) =~= seq![s[i]] + s.subrange(i + 1, to));
    } else {
        assert(s.subrange(i, to) =~= Seq::empty());
    }
}

/// Arguments are added in order: one with a name in front under that name, any other one by its
/// place.
pub proof fn law_arguments_are_added_in_order(
    tokens: Seq<Seq<char>>,
    i: int,
    call: CallView,
    depth: nat,
)
    requires
        0 <= i < tokens.len(),
    ensures
        ({
            let t = tokens[i];
            let named = template_parse::equals_from(t, 0, None, 0) matches Some(k) && k > 0;
            let k = template_parse::equals_from(t, 0, None, 0).unwrap();
            let value = template_parse::atom(
                if named {
                    t.skip(k + 1)
                } else {
                    t
                },
                depth,
            );
            let all = template_parse::call_from(tokens, i, call, depth);
            &&& value matches Err(e) ==> all == Err::<CallView, Seq<char>>(e)
            &&& value is Ok && named ==> all == template_parse::call_from(
                tokens,
                i + 1,
                CallView { hash: call.hash.push((t.take(k), value->Ok_0)), ..call },
                depth,
            )
            &&& value is Ok && !named ==> all == template_parse::call_from(
                tokens,
                i + 1,
                CallView { args: call.args.push(value->Ok_0), ..call },
                depth,
            )
        }),
        template_parse::call_from(tokens, tokens.len() as int, call, depth) == Ok::<
            CallView,
            Seq<char>,
        >(call),
{
}

/// A word: no white space, no quotes and no brackets.
pub open spec fn is_word(w: Seq<char>) -> bool {
    &&& w.len() > 0
    &&& forall|i: int| 0 <= i < w.len() ==> plain(#[trigger] w[i])
}

/// A character of a word.
pub open spec fn plain(c: char) -> bool {
    !text::is_space(Space::Js, c) && c != '"' && c != '\'' && c != '(' && c != ')' && c != '[' && c
        != ']'
}

proof fn lemma_word(s: Seq<char>, b: int, i: int, n: int)
    requires
        0 <= b < i <= n <= s.len(),
        forall|k: int| b <= k < n ==> plain(#[trigger] s[k]),
    ensures
        template_parse::tokens_from(
            s,
            i,
            ScanView { start: Some(b), quote: None, depth: 0, brackets: 0 },
        ) == template_parse::tokens_from(
            s,
            n,
            ScanView { start: Some(b), quote: None, depth: 0, brackets: 0 },
        ),
    decreases n - i,
{
    let st = ScanView { start: Some(b), quote: None, depth: 0, brackets: 0 };
    if i < n {
        assert(plain(s[i]));
        lemma_word(s, b, i + 1, n);
        assert(template_parse::token_step(s, i, st) == (i + 1, st));
        assert(template_parse::token_before(s, i, st) =~= Seq::empty());
        let rest = template_parse::tokens_from(s, i + 1, st);
        assert(Seq::<Seq<char>>::empty() + rest =~= rest);
    }
}

/// Words with a blank between them are read one by one.
pub proof fn law_blanks_divide_words(one: Seq<char>, two: Seq<char>)
    requires
        is_word(one),
        is_word(two),
    ensures
        template_parse::tokens(one + seq![' '] + two) == seq![one, two],
        template_parse::tokens(one) == seq![one],
{
    let s = one + seq![' '] + two;
    let n = one.len() as int;
    let m = s.len() as int;
    let none = template_parse::scan_start();
    assert(text::is_space(Space::Js, ' '));
    assert forall|k: int| 0 <= k < n implies plain(#[trigger] s[k]) by {
        assert(s[k] == one[k]);
    }
    assert forall|k: int| n + 1 <= k < m implies plain(#[trigger] s[k]) by {
        assert(s[k] == two[k - n - 1]);
    }
    assert(s[n] == ' ');
    let a = ScanView { start: Some(0int), quote: None, depth: 0, brackets: 0 };
    let b = ScanView { start: Some(n + 1), quote: None, depth: 0, brackets: 0 };
    // the first word
    assert(plain(s[0]));
    assert(template_parse::token_step(s, 0, none) == (1int, a));
    assert(template_parse::token_before(s, 0, none) =~= Seq::empty());
    lemma_word(s, 0, 1, n);
    // the blank
    assert(template_parse::token_step(s, n, a) == (n + 1, none));
    assert(template_parse::token_before(s, n, a) =~= seq![one]) by {
        assert(s.subrange(0, n) =~= one);
    }
    // the second word
    assert(plain(s[n + 1]));
    assert(template_parse::token_step(s, n + 1, none) == (n + 2, b));
    assert(template_parse::token_before(s, n + 1, none) =~= Seq::empty());
    lemma_word(s, n + 1, n + 2, m);
    assert(s.subrange(n + 1, m) =~= two);
    assert(template_parse::tokens_from(s, m, b) =~= seq![two]);
    assert(template_parse::tokens_from(s, n + 1, none) =~= seq![two]);
    assert(template_parse::tokens_from(s, n, a) =~= seq![one, two]);
    assert(template_parse::tokens_from(s, 0, none) =~= seq![one, two]);
    // one word alone
    assert(plain(one[0]));
    assert(template_parse::token_step(one, 0, none) == (1int, a));
    assert(template_parse::token_before(one, 0, none) =~= Seq::empty());
    lemma_word(one, 0, 1, n);
    assert(one.subrange(0, n) =~= one);
    assert(template_parse::tokens_from(one, n, a) =~= seq![one]);
    assert(template_parse::tokens_from(one, 0, none) =~= seq![one]);
}

/// A tag with two braces and a text before it.
pub open spec fn plain_tag(s: Seq<char>, cursor: int, open: int) -> bool {
    open > cursor && !text::stands_at(s, open, "{{!--"@) && !text::stands_at(s, open, "{{{"@)
}

/// The text before a tag is kept as it is, and the tag is what stands between its braces; a text
/// without a tag is kept whole.
pub proof fn law_text_between_tags_is_kept(s: Seq<char>, cursor: int, st: ParsingView)
    requires
        0 <= cursor < s.len(),
    ensures
        text::find_text(s, "{{"@, cursor) is None ==> template_parse::parse_step(s, cursor, st)
            == Ok::<(int, ParsingView), Seq<char>>(
            (s.len() as int, template_parse::with_node(st, NodeView::Text(s.skip(cursor)))),
        ),
        text::find_text(s, "{{"@, cursor) is Some && plain_tag(
            s,
            cursor,
            text::find_text(s, "{{"@, cursor).unwrap(),
        ) ==> ({
            let open = text::find_text(s, "{{"@, cursor).unwrap();
            let before = template_parse::with_node(
                st,
                NodeView::Text(s.subrange(cursor, open)),
            );
            match template_parse::tag_end(s, open + 2, "}}"@, None, 0) {
                None => template_parse::parse_step(s, cursor, st) is Err,
                Some(end) => match template_parse::with_tag(
                    before,
                    text::trim(Space::Js, s.subrange(open + 2, end)),
                    false,
                ) {
                    Ok(after) => template_parse::parse_step(s, cursor, st) == Ok::<
                        (int, ParsingView),
                        Seq<char>,
                    >((end + 2, after)),
                    Err(e) => template_parse::parse_step(s, cursor, st) == Err::<
                        (int, ParsingView),
                        Seq<char>,
                    >(e),
                },
            }
        }),
{
    reveal_strlit("}}");
    reveal_strlit("}}}");
    assert("}}"@.len() == 2 && "}}}"@.len() == 3);
}

/// A template is complete where every block is closed.
pub proof fn law_blocks_have_to_be_closed(st: ParsingView)
    ensures
        template_parse::parse_end(st) is Ok <==> st.stack.len() == 0,
        st.stack.len() == 0 ==> template_parse::parse_end(st) == Ok::<Seq<NodeView>, Seq<char>>(
            st.root,
        ),
{
}

/// A line that is not only a tag of a block, nor starts a comment, is kept with its line end; one
/// that is only a tag loses the white space around it.
pub proof fn law_lines_with_only_a_tag_vanish(lines: Seq<Seq<char>>, i: int)
    requires
        0 <= i < lines.len(),
        !template_parse::opens_comment(template_parse::line_body(lines[i])),
    ensures
        ({
            let body = template_parse::line_body(lines[i]);
            let rest = template_parse::stripped_from(lines, i + 1);
            &&& !template_parse::is_standalone(body) ==> template_parse::stripped_from(lines, i)
                == lines[i] + rest
            &&& template_parse::is_standalone(body) ==> template_parse::stripped_from(lines, i)
                == text::trim(Space::Js, body) + rest
        }),
{
}

/// Only tags of blocks and comments stand alone; an output never does.
pub proof fn law_outputs_do_not_stand_alone(inner: Seq<char>)
    requires
        inner.len() > 0,
        inner[0] != '#' && inner[0] != '/' && inner[0] != '^' && inner[0] != '!' && inner[0] != 'e',
    ensures
        !template_parse::is_block_tag(inner),
{
    reveal_strlit("else");
    assert("else"@.len() == 4 && "else"@[0] == 'e');
    if text::stands_at(inner, 0, "else"@) {
        assert(inner.subrange(0, 4)[0] == inner[0]);
    }
}

} // verus!
