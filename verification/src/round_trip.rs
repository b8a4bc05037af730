//! What the catalog reader gives back of a catalog written out in the
//! canonical layout: tokens separated by one space, none after `(` or
//! before `)`, and a newline between top-level forms.

use vstd::prelude::*;

use crate::spec::{permission_keyword, CommandView, Permission, TargetView};
use crate::spec_lisp::{
    commands_from, cons_token, is_delim, keyword_of, kw_lookup, lex, lex_from, parse_expr, parse_forms, parse_items,
    parse_spec, spec_parse_command, spec_parse_target, split_from, string_body, strings_from, symbol_end, unknown_key,
    is_command_key, LintErrorView, SExprView, TokenView,
};
use crate::text::{decimal, digit_char, is_ws};

verus! {

/// The text of one token.
pub open spec fn token_text(t: TokenView) -> Seq<char> {
    match t {
        TokenView::Open => seq!['('],
        TokenView::Close => seq![')'],
        TokenView::Sym(s) => s,
        TokenView::Str(s) => seq!['"'] + s + seq!['"'],
    }
}

/// The layout between two tokens: nothing after `(` or before `)`, a
/// newline between `)` and `(`, one space otherwise.
pub open spec fn gap(a: TokenView, b: TokenView) -> Seq<char> {
    if a is Open || b is Close {
        Seq::<char>::empty()
    } else if a is Close && b is Open {
        seq!['\n']
    } else {
        seq![' ']
    }
}

/// The canonical text of a token list.
pub open spec fn layout(ts: Seq<TokenView>) -> Seq<char>
    decreases ts.len(),
{
    if ts.len() == 0 {
        Seq::<char>::empty()
    } else if ts.len() == 1 {
        token_text(ts[0])
    } else {
        token_text(ts[0]) + gap(ts[0], ts[1]) + layout(ts.drop_first())
    }
}

/// Whether a bare symbol reads back as itself: non-empty, without
/// whitespace, parentheses or `;`, and not starting with `"`.
pub open spec fn plain_symbol(s: Seq<char>) -> bool {
    &&& s.len() > 0
    &&& s[0] != '"'
    &&& forall|k: int| 0 <= k < s.len() ==> !is_delim(#[trigger] s[k])
}

/// Whether a string literal's body reads back as itself: it holds no `"`
/// and no `\`.
pub open spec fn plain_string(s: Seq<char>) -> bool {
    forall|k: int| 0 <= k < s.len() ==> #[trigger] s[k] != '"' && s[k] != '\\'
}

/// Whether a token's canonical text reads back as that token.
pub open spec fn plain_token(t: TokenView) -> bool {
    match t {
        TokenView::Sym(s) => plain_symbol(s),
        TokenView::Str(s) => plain_string(s),
        _ => true,
    }
}

proof fn lemma_string_body_plain(s: Seq<char>, j: int, x: Seq<char>)
    requires
        0 <= j,
        j + x.len() < s.len(),
        s.subrange(j, j + x.len()) == x,
        s[j + x.len()] == '"',
        plain_string(x),
    ensures
        string_body(s, j) == Ok::<(Seq<char>, int), crate::spec_lisp::StrFault>((x, j + x.len() + 1)),
    decreases x.len(),
{
    if x.len() == 0 {
        assert(s[j] == '"');
        assert(x == Seq::<char>::empty());
    } else {
        assert(s[j] == x[0]);
        assert(x[0] != '"' && x[0] != '\\');
        let rest = x.drop_first();
        assert(s.subrange(j + 1, j + 1 + rest.len()) == rest);
        assert forall|k: int| 0 <= k < rest.len() implies #[trigger] rest[k] != '"' && rest[k] != '\\' by {
            assert(rest[k] == x[k + 1]);
        }
        lemma_string_body_plain(s, j + 1, rest);
        assert(seq![x[0]] + rest == x);
    }
}

proof fn lemma_symbol_end_at(s: Seq<char>, a: int, b: int)
    requires
        0 <= a <= b <= s.len(),
        forall|k: int| a <= k < b ==> !is_delim(#[trigger] s[k]),
        b == s.len() || is_delim(s[b]),
    ensures
        symbol_end(s, a) == b,
    decreases b - a,
{
    if a < b {
        lemma_symbol_end_at(s, a + 1, b);
    }
}

/// One token read at `i`.
proof fn lemma_lex_token(s: Seq<char>, i: int, t: TokenView)
    requires
        0 <= i,
        i + token_text(t).len() <= s.len(),
        s.subrange(i, i + token_text(t).len()) == token_text(t),
        plain_token(t),
        t is Sym ==> i + token_text(t).len() == s.len() || is_delim(s[i + token_text(t).len()]),
    ensures
        lex_from(s, i) == cons_token(t, lex_from(s, i + token_text(t).len())),
{
    let text = token_text(t);
    assert(s[i] == text[0]);
    match t {
        TokenView::Str(x) => {
            assert(s.subrange(i + 1, i + 1 + x.len()) =~= x) by {
                assert forall|k: int| 0 <= k < x.len() implies s[i + 1 + k] == x[k] by {
                    assert(s[i + 1 + k] == s.subrange(i, i + text.len())[1 + k]);
                    assert(text[1 + k] == x[k]);
                }
            }
            assert(s[i + 1 + x.len()] == s.subrange(i, i + text.len())[x.len() + 1int]);
            lemma_string_body_plain(s, i + 1, x);
        },
        TokenView::Sym(x) => {
            assert(!is_delim(x[0]));
            assert forall|k: int| i + 1 <= k < i + x.len() implies !is_delim(#[trigger] s[k]) by {
                assert(s[k] == x[k - i]);
            }
            lemma_symbol_end_at(s, i + 1, i + x.len());
        },
        _ => {},
    }
}

proof fn lemma_layout_starts(ts: Seq<TokenView>)
    requires
        ts.len() > 0,
    ensures
        token_text(ts[0]).len() <= layout(ts).len(),
        layout(ts).subrange(0, token_text(ts[0]).len() as int) == token_text(ts[0]),
{
    let t = token_text(ts[0]);
    if ts.len() > 1 {
        assert(layout(ts) == t + (gap(ts[0], ts[1]) + layout(ts.drop_first())));
    }
    assert(layout(ts).subrange(0, t.len() as int) =~= t);
}

/// Every token list of plain tokens, written out in the canonical layout
/// after any text `p`, reads back from there as exactly that list.
pub proof fn lemma_lex_layout(p: Seq<char>, ts: Seq<TokenView>)
    requires
        forall|k: int| 0 <= k < ts.len() ==> plain_token(#[trigger] ts[k]),
    ensures
        lex_from(p + layout(ts), p.len() as int) == Ok::<Seq<TokenView>, Seq<char>>(ts),
    decreases ts.len(),
{
    let s = p + layout(ts);
    let i = p.len() as int;
    if ts.len() == 0 {
        assert(s == p);
        assert(ts == Seq::<TokenView>::empty());
    } else {
        let t = ts[0];
        let text = token_text(t);
        assert(plain_token(ts[0]));
        lemma_layout_starts(ts);
        assert(s.subrange(i, i + text.len()) == text) by {
            assert forall|k: int| i <= k < i + text.len() implies s[k] == text[k - i] by {
                assert(s[k] == layout(ts)[k - i]);
                assert(layout(ts).subrange(0, text.len() as int)[k - i] == layout(ts)[k - i]);
            }
            assert(s.subrange(i, i + text.len()) =~= text);
        }
        let rest = ts.drop_first();
        assert forall|k: int| 0 <= k < rest.len() implies plain_token(#[trigger] rest[k]) by {
            assert(rest[k] == ts[k + 1]);
        }
        if ts.len() == 1 {
            assert(s == p + text);
            lemma_lex_token(s, i, t);
            assert(seq![t] + Seq::<TokenView>::empty() == ts);
        } else {
            let g = gap(t, rest[0]);
            let q = p + text + g;
            assert(s == q + layout(rest));
            lemma_layout_starts(rest);
            let j = i + text.len();
            if g.len() == 0 {
                assert(s[j] == layout(rest)[0]);
                assert(layout(rest).subrange(0, token_text(rest[0]).len() as int)[0] == layout(rest)[0]);
                if rest[0] is Close {
                    assert(s[j] == ')');
                }
            } else {
                assert(s[j] == g[0]);
            }
            lemma_lex_token(s, i, t);
            lemma_lex_layout(q, rest);
            if g.len() > 0 {
                assert(is_ws(s[j]));
                assert(lex_from(s, j) == lex_from(s, j + 1));
            }
            assert(seq![t] + rest == ts);
        }
    }
}

/// The tokens of an S-expression.
pub open spec fn sexpr_tokens(e: SExprView) -> Seq<TokenView>
    decreases e, 0int,
{
    match e {
        SExprView::Sym(s) => seq![TokenView::Sym(s)],
        SExprView::Str(s) => seq![TokenView::Str(s)],
        SExprView::List(items) => seq![TokenView::Open] + items_tokens(items, 0) + seq![TokenView::Close],
    }
}

/// The tokens of the S-expressions `items[i..]`, one after another.
pub open spec fn items_tokens(items: Seq<SExprView>, i: int) -> Seq<TokenView>
    decreases items, items.len() - i,
{
    if 0 <= i < items.len() {
        sexpr_tokens(items[i]) + items_tokens(items, i + 1)
    } else {
        Seq::<TokenView>::empty()
    }
}

proof fn lemma_sexpr_tokens_start(e: SExprView)
    ensures
        sexpr_tokens(e).len() >= 1,
        !(sexpr_tokens(e)[0] is Close),
{
}

/// An S-expression's tokens parse back to it, whatever precedes and
/// follows them.
proof fn lemma_parse_sexpr(e: SExprView, pre: Seq<TokenView>, post: Seq<TokenView>)
    ensures
        parse_expr(pre + sexpr_tokens(e) + post, pre.len() as int) == Ok::<(SExprView, int), Seq<char>>(
            (e, (pre.len() + sexpr_tokens(e).len()) as int),
        ),
    decreases e, 0int,
{
    let ts = pre + sexpr_tokens(e) + post;
    let pos = pre.len() as int;
    assert(ts[pos] == sexpr_tokens(e)[0]);
    match e {
        SExprView::List(items) => {
            let inner = items_tokens(items, 0);
            assert(ts == (pre + seq![TokenView::Open]) + inner + seq![TokenView::Close] + post);
            lemma_parse_items(items, 0, pre + seq![TokenView::Open], post);
            assert(items.subrange(0, items.len() as int) == items);
        },
        _ => {},
    }
}

proof fn lemma_parse_items(items: Seq<SExprView>, i: int, pre: Seq<TokenView>, post: Seq<TokenView>)
    requires
        0 <= i <= items.len(),
    ensures
        parse_items(pre + items_tokens(items, i) + seq![TokenView::Close] + post, pre.len() as int) == Ok::<
            (Seq<SExprView>, int),
            Seq<char>,
        >((items.subrange(i, items.len() as int), (pre.len() + items_tokens(items, i).len() + 1) as int)),
    decreases items, items.len() - i,
{
    let ts = pre + items_tokens(items, i) + seq![TokenView::Close] + post;
    let pos = pre.len() as int;
    if i == items.len() {
        assert(ts[pos] == TokenView::Close);
        assert(items.subrange(i, items.len() as int) == Seq::<SExprView>::empty());
    } else {
        let e = items[i];
        let mine = sexpr_tokens(e);
        let tail = items_tokens(items, i + 1);
        lemma_sexpr_tokens_start(e);
        assert(ts == pre + mine + (tail + seq![TokenView::Close] + post));
        assert(ts[pos] == mine[0]);
        lemma_parse_sexpr(e, pre, tail + seq![TokenView::Close] + post);
        assert(ts == (pre + mine) + tail + seq![TokenView::Close] + post);
        lemma_parse_items(items, i + 1, pre + mine, post);
        assert(seq![e] + items.subrange(i + 1, items.len() as int) == items.subrange(i, items.len() as int));
    }
}

/// A sequence of top-level forms' tokens parses back to those forms.
proof fn lemma_parse_forms(forms: Seq<SExprView>, i: int, pre: Seq<TokenView>)
    requires
        0 <= i <= forms.len(),
    ensures
        parse_forms(pre + items_tokens(forms, i), pre.len() as int) == Ok::<Seq<SExprView>, Seq<char>>(
            forms.subrange(i, forms.len() as int),
        ),
    decreases forms.len() - i,
{
    let ts = pre + items_tokens(forms, i);
    let pos = pre.len() as int;
    if i == forms.len() {
        assert(ts == pre);
        assert(forms.subrange(i, forms.len() as int) == Seq::<SExprView>::empty());
    } else {
        let e = forms[i];
        let mine = sexpr_tokens(e);
        let tail = items_tokens(forms, i + 1);
        lemma_sexpr_tokens_start(e);
        assert(ts == pre + mine + tail);
        lemma_parse_sexpr(e, pre, tail);
        assert(ts == (pre + mine) + tail);
        lemma_parse_forms(forms, i + 1, pre + mine);
        assert(seq![e] + forms.subrange(i + 1, forms.len() as int) == forms.subrange(i, forms.len() as int));
    }
}

/// Whether every symbol and string of an S-expression reads back as itself.
pub open spec fn plain_sexpr(e: SExprView) -> bool
    decreases e, 0int,
{
    match e {
        SExprView::Sym(s) => plain_symbol(s),
        SExprView::Str(s) => plain_string(s),
        SExprView::List(items) => plain_items(items, 0),
    }
}

/// Whether every S-expression of `items[i..]` is plain.
pub open spec fn plain_items(items: Seq<SExprView>, i: int) -> bool
    decreases items, items.len() - i,
{
    if 0 <= i < items.len() {
        plain_sexpr(items[i]) && plain_items(items, i + 1)
    } else {
        true
    }
}

proof fn lemma_plain_tokens(e: SExprView)
    requires
        plain_sexpr(e),
    ensures
        forall|k: int| 0 <= k < sexpr_tokens(e).len() ==> plain_token(#[trigger] sexpr_tokens(e)[k]),
    decreases e, 0int,
{
    match e {
        SExprView::List(items) => {
            lemma_plain_items_tokens(items, 0);
            let inner = items_tokens(items, 0);
            let ts = sexpr_tokens(e);
            assert forall|k: int| 0 <= k < ts.len() implies plain_token(#[trigger] ts[k]) by {
                if 1 <= k < ts.len() - 1 {
                    assert(ts[k] == inner[k - 1]);
                }
            }
        },
        _ => {},
    }
}

proof fn lemma_plain_items_tokens(items: Seq<SExprView>, i: int)
    requires
        plain_items(items, i),
    ensures
        forall|k: int| 0 <= k < items_tokens(items, i).len() ==> plain_token(#[trigger] items_tokens(items, i)[k]),
    decreases items, items.len() - i,
{
    if 0 <= i < items.len() {
        lemma_plain_tokens(items[i]);
        lemma_plain_items_tokens(items, i + 1);
        let mine = sexpr_tokens(items[i]);
        let tail = items_tokens(items, i + 1);
        let ts = items_tokens(items, i);
        assert forall|k: int| 0 <= k < ts.len() implies plain_token(#[trigger] ts[k]) by {
            if k < mine.len() {
                assert(ts[k] == mine[k]);
            } else {
                assert(ts[k] == tail[k - mine.len()]);
            }
        }
    }
}

/// A catalog of plain top-level forms, written out in the canonical layout,
/// reads back as the commands those forms denote.
pub proof fn lemma_canonical_source(forms: Seq<SExprView>)
    requires
        plain_items(forms, 0),
    ensures
        parse_spec(layout(items_tokens(forms, 0))) == commands_from(forms, 0),
{
    let ts = items_tokens(forms, 0);
    lemma_plain_items_tokens(forms, 0);
    lemma_lex_layout(Seq::<char>::empty(), ts);
    assert(Seq::<char>::empty() + layout(ts) == layout(ts));
    lemma_parse_forms(forms, 0, Seq::<TokenView>::empty());
    assert(Seq::<TokenView>::empty() + ts == ts);
    assert(forms.subrange(0, forms.len() as int) == forms);
}

/// Layout distributes over concatenation, with the gap between the two
/// token lists at the seam.
pub proof fn lemma_layout_concat(a: Seq<TokenView>, b: Seq<TokenView>)
    requires
        a.len() > 0,
        b.len() > 0,
    ensures
        layout(a + b) == layout(a) + gap(a.last(), b[0]) + layout(b),
    decreases a.len(),
{
    let ab = a + b;
    if a.len() == 1 {
        assert(ab[0] == a[0]);
        assert(ab[1] == b[0]);
        assert(ab.drop_first() == b);
    } else {
        let rest = a.drop_first();
        assert(ab[0] == a[0]);
        assert(ab[1] == a[1]);
        assert(ab.drop_first() == rest + b);
        lemma_layout_concat(rest, b);
        assert(rest.last() == a.last());
        assert(rest[0] == a[1]);
    }
}

/// The canonical text of an S-expression.
pub open spec fn sexpr_text(e: SExprView) -> Seq<char> {
    layout(sexpr_tokens(e))
}

/// The layout between two S-expressions side by side.
pub open spec fn item_gap(a: SExprView, b: SExprView) -> Seq<char> {
    gap(sexpr_tokens(a).last(), sexpr_tokens(b)[0])
}

/// The canonical text of the S-expressions `items[i..]` side by side.
pub open spec fn items_text(items: Seq<SExprView>, i: int) -> Seq<char>
    decreases items.len() - i,
{
    if i < 0 || i >= items.len() {
        Seq::<char>::empty()
    } else if i == items.len() - 1 {
        sexpr_text(items[i])
    } else {
        sexpr_text(items[i]) + item_gap(items[i], items[i + 1]) + items_text(items, i + 1)
    }
}

proof fn lemma_items_tokens_shape(items: Seq<SExprView>, i: int)
    requires
        0 <= i < items.len(),
    ensures
        items_tokens(items, i).len() > 0,
        items_tokens(items, i)[0] == sexpr_tokens(items[i])[0],
        items_tokens(items, i).last() == sexpr_tokens(items.last()).last(),
    decreases items.len() - i,
{
    lemma_sexpr_tokens_start(items[i]);
    if i + 1 < items.len() {
        lemma_items_tokens_shape(items, i + 1);
    } else {
        assert(items_tokens(items, i + 1) == Seq::<TokenView>::empty());
        assert(items_tokens(items, i) == sexpr_tokens(items[i]));
    }
}

/// The text of side-by-side S-expressions is the layout of their tokens.
proof fn lemma_items_text(items: Seq<SExprView>, i: int)
    requires
        0 <= i < items.len(),
    ensures
        layout(items_tokens(items, i)) == items_text(items, i),
    decreases items.len() - i,
{
    lemma_sexpr_tokens_start(items[i]);
    if i + 1 < items.len() {
        lemma_items_text(items, i + 1);
        lemma_items_tokens_shape(items, i + 1);
        lemma_layout_concat(sexpr_tokens(items[i]), items_tokens(items, i + 1));
    } else {
        assert(items_tokens(items, i + 1) == Seq::<TokenView>::empty());
        assert(items_tokens(items, i) == sexpr_tokens(items[i]));
    }
}

/// A list's text is its items' text in parentheses.
pub proof fn lemma_list_text(items: Seq<SExprView>)
    ensures
        sexpr_text(SExprView::List(items)) == seq!['('] + items_text(items, 0) + seq![')'],
{
    let open = seq![TokenView::Open];
    let close = seq![TokenView::Close];
    let inner = items_tokens(items, 0);
    if items.len() == 0 {
        assert(inner == Seq::<TokenView>::empty());
        assert(open + inner + close == open + close);
        lemma_layout_concat(open, close);
        assert(layout(open) == seq!['(']);
        assert(layout(close) == seq![')']);
        assert(seq!['('] + items_text(items, 0) + seq![')'] == seq!['('] + Seq::<char>::empty() + seq![')']);
    } else {
        lemma_items_text(items, 0);
        lemma_items_tokens_shape(items, 0);
        lemma_layout_concat(open, inner);
        lemma_layout_concat(open + inner, close);
        assert((open + inner).last() == inner.last());
        assert(layout(open) == seq!['(']);
        assert(layout(close) == seq![')']);
        assert(gap(open.last(), inner[0]) == Seq::<char>::empty());
        assert(gap((open + inner).last(), close[0]) == Seq::<char>::empty());
        assert(layout(open + inner) == seq!['('] + items_text(items, 0));
    }
}

/// The text of a catalog whose forms stand one per line.
pub proof fn lemma_forms_text(forms: Seq<SExprView>)
    requires
        forms.len() > 0,
    ensures
        layout(items_tokens(forms, 0)) == items_text(forms, 0),
{
    lemma_items_text(forms, 0);
}

/// A plain S-expression's items are plain when each of them is.
pub proof fn lemma_plain_items_each(items: Seq<SExprView>, i: int)
    requires
        0 <= i,
        forall|k: int| i <= k < items.len() ==> plain_sexpr(#[trigger] items[k]),
    ensures
        plain_items(items, i),
    decreases items.len() - i,
{
    if i < items.len() {
        lemma_plain_items_each(items, i + 1);
    }
}

/// The form `(defcommentcommand "<name>" :trigger "<trigger>" :target
/// (label "<label>"))`.
pub open spec fn label_command_form(name: Seq<char>, trigger: Seq<char>, label: Seq<char>) -> SExprView {
    SExprView::List(
        seq![
            SExprView::Sym("defcommentcommand"@),
            SExprView::Str(name),
            SExprView::Sym(":trigger"@),
            SExprView::Str(trigger),
            SExprView::Sym(":target"@),
            SExprView::List(seq![SExprView::Sym("label"@), SExprView::Str(label)]),
        ],
    )
}

/// A string literal's canonical text: the body in double quotes.
pub open spec fn quoted(s: Seq<char>) -> Seq<char> {
    seq!['"'] + s + seq!['"']
}

proof fn lemma_atom_text(e: SExprView)
    ensures
        e matches SExprView::Sym(x) ==> sexpr_text(e) == x && sexpr_tokens(e).last() == TokenView::Sym(x)
            && sexpr_tokens(e)[0] == TokenView::Sym(x),
        e matches SExprView::Str(x) ==> sexpr_text(e) == quoted(x) && sexpr_tokens(e).last() == TokenView::Str(x)
            && sexpr_tokens(e)[0] == TokenView::Str(x),
        e is List ==> sexpr_tokens(e)[0] == TokenView::Open && sexpr_tokens(e).last() == TokenView::Close,
{
}

proof fn lemma_label_form_plain(name: Seq<char>, trigger: Seq<char>, label: Seq<char>)
    requires
        plain_string(name),
        plain_string(trigger),
        plain_string(label),
    ensures
        plain_items(seq![label_command_form(name, trigger, label)], 0),
{
    reveal_strlit("defcommentcommand");
    reveal_strlit(":trigger");
    reveal_strlit(":target");
    reveal_strlit("label");
    let f = label_command_form(name, trigger, label);
    let items = f->List_0;
    let inner = seq![SExprView::Sym("label"@), SExprView::Str(label)];
    assert forall|k: int| 0 <= k < inner.len() implies plain_sexpr(#[trigger] inner[k]) by {
        if k == 0 {
            assert(plain_symbol("label"@));
        }
    }
    lemma_plain_items_each(inner, 0);
    assert forall|k: int| 0 <= k < items.len() implies plain_sexpr(#[trigger] items[k]) by {
        if k == 0 {
            assert(plain_symbol("defcommentcommand"@));
        } else if k == 2 {
            assert(plain_symbol(":trigger"@));
        } else if k == 4 {
            assert(plain_symbol(":target"@));
        }
    }
    lemma_plain_items_each(items, 0);
    let forms = seq![f];
    assert forall|k: int| 0 <= k < forms.len() implies plain_sexpr(#[trigger] forms[k]) by {}
    lemma_plain_items_each(forms, 0);
}

proof fn lemma_label_form_text(name: Seq<char>, trigger: Seq<char>, label: Seq<char>)
    ensures
        layout(items_tokens(seq![label_command_form(name, trigger, label)], 0)) == "(defcommentcommand "@
            + quoted(name) + " :trigger "@ + quoted(trigger) + " :target (label "@ + quoted(label) + "))"@,
{
    reveal_strlit("defcommentcommand");
    reveal_strlit(":trigger");
    reveal_strlit(":target");
    reveal_strlit("label");
    reveal_strlit("(defcommentcommand ");
    reveal_strlit(" :trigger ");
    reveal_strlit(" :target (label ");
    reveal_strlit("))");
    let f = label_command_form(name, trigger, label);
    let items = f->List_0;
    let inner = seq![SExprView::Sym("label"@), SExprView::Str(label)];
    let forms = seq![f];
    lemma_forms_text(forms);
    assert(items_text(forms, 0) == sexpr_text(f));
    lemma_list_text(items);
    lemma_list_text(inner);
    lemma_atom_text(inner[0]);
    lemma_atom_text(inner[1]);
    assert(items_text(inner, 1) == quoted(label));
    assert(items_text(inner, 0) == "label"@ + seq![' '] + quoted(label));
    let inner_text = seq!['('] + ("label"@ + seq![' '] + quoted(label)) + seq![')'];
    assert(sexpr_text(items[5]) == inner_text);
    lemma_atom_text(items[0]);
    lemma_atom_text(items[1]);
    lemma_atom_text(items[2]);
    lemma_atom_text(items[3]);
    lemma_atom_text(items[4]);
    lemma_atom_text(items[5]);
    assert(items_text(items, 5) == inner_text);
    assert(items_text(items, 4) == ":target"@ + seq![' '] + inner_text);
    assert(items_text(items, 3) == quoted(trigger) + seq![' '] + items_text(items, 4));
    assert(items_text(items, 2) == ":trigger"@ + seq![' '] + items_text(items, 3));
    assert(items_text(items, 1) == quoted(name) + seq![' '] + items_text(items, 2));
    assert(items_text(items, 0) == "defcommentcommand"@ + seq![' '] + items_text(items, 1));
    assert(sexpr_text(f) == seq!['('] + items_text(items, 0) + seq![')']);
    lemma_label_text_pieces(name, trigger, label);
}

#[verifier::rlimit(40)]
proof fn lemma_label_text_pieces(name: Seq<char>, trigger: Seq<char>, label: Seq<char>)
    ensures
        seq!['('] + ("defcommentcommand"@ + seq![' '] + (quoted(name) + seq![' '] + (":trigger"@ + seq![' '] + (
        quoted(trigger) + seq![' '] + (":target"@ + seq![' '] + (seq!['('] + ("label"@ + seq![' '] + quoted(
        label)) + seq![')'])))))) + seq![')'] == "(defcommentcommand "@ + quoted(name) + " :trigger "@ + quoted(
            trigger,
        ) + " :target (label "@ + quoted(label) + "))"@,
{
    reveal_strlit("defcommentcommand");
    reveal_strlit(":trigger");
    reveal_strlit(":target");
    reveal_strlit("label");
    reveal_strlit("(defcommentcommand ");
    reveal_strlit(" :trigger ");
    reveal_strlit(" :target (label ");
    reveal_strlit("))");
    let lhs = seq!['('] + ("defcommentcommand"@ + seq![' '] + (quoted(name) + seq![' '] + (":trigger"@ + seq![' '] + (
    quoted(trigger) + seq![' '] + (":target"@ + seq![' '] + (seq!['('] + ("label"@ + seq![' '] + quoted(label))
        + seq![')'])))))) + seq![')'];
    let rhs = "(defcommentcommand "@ + quoted(name) + " :trigger "@ + quoted(trigger) + " :target (label "@ + quoted(
        label,
    ) + "))"@;
    assert(lhs.len() == rhs.len());
    assert(lhs =~= rhs);
}

proof fn lemma_label_target(label: Seq<char>, ctx: Seq<char>)
    ensures
        spec_parse_target(SExprView::List(seq![SExprView::Sym("label"@), SExprView::Str(label)]), ctx) == Ok::<
            TargetView,
            LintErrorView,
        >(TargetView::Label { name: label }),
{
    reveal_strlit("label");
    let inner = seq![SExprView::Sym("label"@), SExprView::Str(label)];
    assert(keyword_of(inner[0]) is None);
    assert(split_from(inner, 2) == Ok::<(Seq<SExprView>, Seq<(Seq<char>, SExprView)>), LintErrorView>(
        (Seq::<SExprView>::empty(), Seq::<(Seq<char>, SExprView)>::empty()),
    ));
    assert(split_from(inner, 1) == Ok::<(Seq<SExprView>, Seq<(Seq<char>, SExprView)>), LintErrorView>(
        (seq![inner[1]], Seq::<(Seq<char>, SExprView)>::empty()),
    ));
    assert(seq![inner[0]] + seq![inner[1]] == inner);
    assert(split_from(inner, 0) == Ok::<(Seq<SExprView>, Seq<(Seq<char>, SExprView)>), LintErrorView>(
        (inner, Seq::<(Seq<char>, SExprView)>::empty()),
    ));
}

/// Keyword pairs whose keys a command accepts have no unknown key.
proof fn lemma_no_unknown_key(kws: Seq<(Seq<char>, SExprView)>, i: int)
    requires
        0 <= i,
        forall|j: int| 0 <= j < kws.len() ==> is_command_key(#[trigger] kws[j].0),
    ensures
        unknown_key(kws, i) is None,
    decreases kws.len() - i,
{
    if i < kws.len() {
        lemma_no_unknown_key(kws, i + 1);
    }
}

proof fn lemma_keyed_keys_known(a: SExprView, key: Seq<char>, b: SExprView, c: SExprView)
    requires
        is_command_key(key),
    ensures
        unknown_key(seq![("trigger"@, a), (key, b), ("target"@, c)], 0) is None,
{
    let kws = seq![("trigger"@, a), (key, b), ("target"@, c)];
    assert forall|j: int| 0 <= j < kws.len() implies is_command_key(#[trigger] kws[j].0) by {}
    lemma_no_unknown_key(kws, 0);
}

proof fn lemma_label_command_parses(name: Seq<char>, trigger: Seq<char>, label: Seq<char>)
    ensures
        spec_parse_command(label_command_form(name, trigger, label)->List_0) == Ok::<CommandView, LintErrorView>(
            CommandView {
                name,
                trigger,
                min_permission: Permission::Write,
                trust_pr_author: true,
                allowlist: Seq::<Seq<char>>::empty(),
                target: TargetView::Label { name: label },
            },
        ),
{
    reveal_strlit(":trigger");
    reveal_strlit("trigger");
    reveal_strlit(":target");
    reveal_strlit("target");
    lemma_command_keys_differ();
    let f = label_command_form(name, trigger, label);
    let items = f->List_0;
    assert(":trigger"@.drop_first() == "trigger"@);
    assert(":target"@.drop_first() == "target"@);
    assert(keyword_of(items[2]) == Some("trigger"@));
    assert(keyword_of(items[4]) == Some("target"@));
    assert(keyword_of(items[1]) is None);
    let kws = seq![("trigger"@, items[3]), ("target"@, items[5])];
    assert(split_from(items, 6) == Ok::<(Seq<SExprView>, Seq<(Seq<char>, SExprView)>), LintErrorView>(
        (Seq::<SExprView>::empty(), Seq::<(Seq<char>, SExprView)>::empty()),
    ));
    assert(split_from(items, 4) == Ok::<(Seq<SExprView>, Seq<(Seq<char>, SExprView)>), LintErrorView>(
        (Seq::<SExprView>::empty(), seq![("target"@, items[5])]),
    ));
    assert(seq![("trigger"@, items[3])] + seq![("target"@, items[5])] == kws);
    assert(split_from(items, 2) == Ok::<(Seq<SExprView>, Seq<(Seq<char>, SExprView)>), LintErrorView>(
        (Seq::<SExprView>::empty(), kws),
    ));
    assert(split_from(items, 1) == Ok::<(Seq<SExprView>, Seq<(Seq<char>, SExprView)>), LintErrorView>(
        (seq![items[1]], kws),
    ));
    let one = kws.drop_last();
    let zero = one.drop_last();
    assert(one == seq![("trigger"@, items[3])]);
    assert(zero == Seq::<(Seq<char>, SExprView)>::empty());
    assert(kw_lookup(zero, "min-permission"@) is None);
    assert(kw_lookup(zero, "trust-pr-author"@) is None);
    assert(kw_lookup(zero, "allowlist"@) is None);
    assert(kw_lookup(one, "trigger"@) == Some(items[3]));
    assert(kw_lookup(one, "min-permission"@) is None);
    assert(kw_lookup(one, "trust-pr-author"@) is None);
    assert(kw_lookup(one, "allowlist"@) is None);
    assert(kw_lookup(kws, "trigger"@) == Some(items[3]));
    assert(kw_lookup(kws, "target"@) == Some(items[5]));
    assert(kw_lookup(kws, "min-permission"@) is None);
    assert(kw_lookup(kws, "trust-pr-author"@) is None);
    assert(kw_lookup(kws, "allowlist"@) is None);
    assert forall|j: int| 0 <= j < kws.len() implies is_command_key(#[trigger] kws[j].0) by {}
    lemma_no_unknown_key(kws, 0);
    lemma_label_target(label, crate::spec_lisp::command_context(name));
}

proof fn lemma_label_form_denotes(name: Seq<char>, trigger: Seq<char>, label: Seq<char>)
    ensures
        commands_from(seq![label_command_form(name, trigger, label)], 0) == Ok::<Seq<CommandView>, LintErrorView>(
            seq![
                CommandView {
                    name,
                    trigger,
                    min_permission: Permission::Write,
                    trust_pr_author: true,
                    allowlist: Seq::<Seq<char>>::empty(),
                    target: TargetView::Label { name: label },
                },
            ],
        ),
{
    lemma_label_command_parses(name, trigger, label);
    let f = label_command_form(name, trigger, label);
    let cmd = CommandView {
        name,
        trigger,
        min_permission: Permission::Write,
        trust_pr_author: true,
        allowlist: Seq::<Seq<char>>::empty(),
        target: TargetView::Label { name: label },
    };
    let forms = seq![f];
    assert(commands_from(forms, 1) == Ok::<Seq<CommandView>, LintErrorView>(Seq::<CommandView>::empty()));
    assert(seq![cmd] + Seq::<CommandView>::empty() == seq![cmd]);
    assert(forms[0] == f);
}

proof fn lemma_sexpr_tokens_end(e: SExprView)
    ensures
        !(sexpr_tokens(e).last() is Open),
{
}

/// The form `(defcommentcommand "<name>" :trigger "<trigger>" :<key>
/// <value> :target (label "<label>"))`.
pub open spec fn keyed_command_form(
    name: Seq<char>,
    trigger: Seq<char>,
    key: Seq<char>,
    value: SExprView,
    label: Seq<char>,
) -> SExprView {
    SExprView::List(
        seq![
            SExprView::Sym("defcommentcommand"@),
            SExprView::Str(name),
            SExprView::Sym(":trigger"@),
            SExprView::Str(trigger),
            SExprView::Sym(seq![':'] + key),
            value,
            SExprView::Sym(":target"@),
            SExprView::List(seq![SExprView::Sym("label"@), SExprView::Str(label)]),
        ],
    )
}

proof fn lemma_keyed_form_plain(name: Seq<char>, trigger: Seq<char>, key: Seq<char>, value: SExprView, label: Seq<char>)
    requires
        plain_string(name),
        plain_string(trigger),
        plain_string(label),
        forall|k: int| 0 <= k < key.len() ==> !is_delim(#[trigger] key[k]),
        plain_sexpr(value),
    ensures
        plain_items(seq![keyed_command_form(name, trigger, key, value, label)], 0),
{
    reveal_strlit("defcommentcommand");
    reveal_strlit(":trigger");
    reveal_strlit(":target");
    reveal_strlit("label");
    let f = keyed_command_form(name, trigger, key, value, label);
    let items = f->List_0;
    let inner = seq![SExprView::Sym("label"@), SExprView::Str(label)];
    assert forall|k: int| 0 <= k < inner.len() implies plain_sexpr(#[trigger] inner[k]) by {
        if k == 0 {
            assert(plain_symbol("label"@));
        }
    }
    lemma_plain_items_each(inner, 0);
    let kw = seq![':'] + key;
    assert forall|k: int| 0 <= k < kw.len() implies !is_delim(#[trigger] kw[k]) by {
        if k > 0 {
            assert(kw[k] == key[k - 1]);
        }
    }
    assert forall|k: int| 0 <= k < items.len() implies plain_sexpr(#[trigger] items[k]) by {
        if k == 0 {
            assert(plain_symbol("defcommentcommand"@));
        } else if k == 2 {
            assert(plain_symbol(":trigger"@));
        } else if k == 4 {
            assert(plain_symbol(kw));
        } else if k == 6 {
            assert(plain_symbol(":target"@));
        }
    }
    lemma_plain_items_each(items, 0);
    let forms = seq![f];
    assert forall|k: int| 0 <= k < forms.len() implies plain_sexpr(#[trigger] forms[k]) by {}
    lemma_plain_items_each(forms, 0);
}

proof fn lemma_keyed_form_text(name: Seq<char>, trigger: Seq<char>, key: Seq<char>, value: SExprView, label: Seq<char>)
    ensures
        layout(items_tokens(seq![keyed_command_form(name, trigger, key, value, label)], 0)) == "(defcommentcommand "@
            + quoted(name) + " :trigger "@ + quoted(trigger) + " :"@ + key + " "@ + sexpr_text(value)
            + " :target (label "@ + quoted(label) + "))"@,
{
    reveal_strlit("label");
    let f = keyed_command_form(name, trigger, key, value, label);
    let items = f->List_0;
    let inner = seq![SExprView::Sym("label"@), SExprView::Str(label)];
    let forms = seq![f];
    lemma_forms_text(forms);
    assert(items_text(forms, 0) == sexpr_text(f));
    lemma_list_text(items);
    lemma_list_text(inner);
    lemma_atom_text(inner[0]);
    lemma_atom_text(inner[1]);
    assert(items_text(inner, 1) == quoted(label));
    assert(items_text(inner, 0) == "label"@ + seq![' '] + quoted(label));
    let inner_text = seq!['('] + ("label"@ + seq![' '] + quoted(label)) + seq![')'];
    assert(sexpr_text(items[7]) == inner_text);
    lemma_atom_text(items[0]);
    lemma_atom_text(items[1]);
    lemma_atom_text(items[2]);
    lemma_atom_text(items[3]);
    lemma_atom_text(items[4]);
    lemma_atom_text(items[5]);
    lemma_atom_text(items[6]);
    lemma_atom_text(items[7]);
    lemma_sexpr_tokens_start(value);
    lemma_sexpr_tokens_end(value);
    let vt = sexpr_text(value);
    assert(items_text(items, 7) == inner_text);
    assert(items_text(items, 6) == ":target"@ + seq![' '] + inner_text);
    assert(items_text(items, 5) == vt + seq![' '] + items_text(items, 6));
    assert(items_text(items, 4) == (seq![':'] + key) + seq![' '] + items_text(items, 5));
    assert(items_text(items, 3) == quoted(trigger) + seq![' '] + items_text(items, 4));
    assert(items_text(items, 2) == ":trigger"@ + seq![' '] + items_text(items, 3));
    assert(items_text(items, 1) == quoted(name) + seq![' '] + items_text(items, 2));
    assert(items_text(items, 0) == "defcommentcommand"@ + seq![' '] + items_text(items, 1));
    lemma_keyed_text_pieces(name, trigger, key, vt, label);
}

#[verifier::rlimit(40)]
proof fn lemma_keyed_text_pieces(name: Seq<char>, trigger: Seq<char>, key: Seq<char>, vt: Seq<char>, label: Seq<char>)
    ensures
        seq!['('] + ("defcommentcommand"@ + seq![' '] + (quoted(name) + seq![' '] + (":trigger"@ + seq![' '] + (
        quoted(trigger) + seq![' '] + ((seq![':'] + key) + seq![' '] + (vt + seq![' '] + (":target"@ + seq![' ']
            + (seq!['('] + ("label"@ + seq![' '] + quoted(label)) + seq![')'])))))))) + seq![')']
            == "(defcommentcommand "@ + quoted(name) + " :trigger "@ + quoted(trigger) + " :"@ + key + " "@ + vt
            + " :target (label "@ + quoted(label) + "))"@,
{
    reveal_strlit("defcommentcommand");
    reveal_strlit(":trigger");
    reveal_strlit(":target");
    reveal_strlit("label");
    reveal_strlit("(defcommentcommand ");
    reveal_strlit(" :trigger ");
    reveal_strlit(" :");
    reveal_strlit(" ");
    reveal_strlit(" :target (label ");
    reveal_strlit("))");
    let lhs = seq!['('] + ("defcommentcommand"@ + seq![' '] + (quoted(name) + seq![' '] + (":trigger"@ + seq![' '] + (
    quoted(trigger) + seq![' '] + ((seq![':'] + key) + seq![' '] + (vt + seq![' '] + (":target"@ + seq![' '] + (
    seq!['('] + ("label"@ + seq![' '] + quoted(label)) + seq![')'])))))))) + seq![')'];
    let rhs = "(defcommentcommand "@ + quoted(name) + " :trigger "@ + quoted(trigger) + " :"@ + key + " "@ + vt
        + " :target (label "@ + quoted(label) + "))"@;
    assert(lhs.len() == rhs.len());
    assert(lhs =~= rhs);
}

/// The items and keyword pairs of a keyed command form.
proof fn lemma_keyed_form_split(name: Seq<char>, trigger: Seq<char>, key: Seq<char>, value: SExprView, label: Seq<char>)
    ensures
        ({
            let items = keyed_command_form(name, trigger, key, value, label)->List_0;
            split_from(items, 1) == Ok::<(Seq<SExprView>, Seq<(Seq<char>, SExprView)>), LintErrorView>(
                (seq![items[1]], seq![("trigger"@, items[3]), (key, items[5]), ("target"@, items[7])]),
            )
        }),
{
    reveal_strlit(":trigger");
    reveal_strlit("trigger");
    reveal_strlit(":target");
    reveal_strlit("target");
    let items = keyed_command_form(name, trigger, key, value, label)->List_0;
    assert(":trigger"@.drop_first() == "trigger"@);
    assert(":target"@.drop_first() == "target"@);
    assert((seq![':'] + key).drop_first() == key);
    assert(keyword_of(items[2]) == Some("trigger"@));
    assert(keyword_of(items[4]) == Some(key));
    assert(keyword_of(items[6]) == Some("target"@));
    assert(keyword_of(items[1]) is None);
    let t = seq![("target"@, items[7])];
    let kt = seq![(key, items[5]), ("target"@, items[7])];
    let kws = seq![("trigger"@, items[3]), (key, items[5]), ("target"@, items[7])];
    assert(split_from(items, 8) == Ok::<(Seq<SExprView>, Seq<(Seq<char>, SExprView)>), LintErrorView>(
        (Seq::<SExprView>::empty(), Seq::<(Seq<char>, SExprView)>::empty()),
    ));
    assert(seq![("target"@, items[7])] + Seq::<(Seq<char>, SExprView)>::empty() == t);
    assert(split_from(items, 6) == Ok::<(Seq<SExprView>, Seq<(Seq<char>, SExprView)>), LintErrorView>(
        (Seq::<SExprView>::empty(), t),
    ));
    assert(seq![(key, items[5])] + t == kt);
    assert(split_from(items, 4) == Ok::<(Seq<SExprView>, Seq<(Seq<char>, SExprView)>), LintErrorView>(
        (Seq::<SExprView>::empty(), kt),
    ));
    assert(seq![("trigger"@, items[3])] + kt == kws);
    assert(split_from(items, 2) == Ok::<(Seq<SExprView>, Seq<(Seq<char>, SExprView)>), LintErrorView>(
        (Seq::<SExprView>::empty(), kws),
    ));
    assert(seq![items[1]] + Seq::<SExprView>::empty() == seq![items[1]]);
}

/// Looking up a key among the keyword pairs of a keyed command form.
proof fn lemma_keyed_lookup(a: SExprView, key: Seq<char>, b: SExprView, c: SExprView, k: Seq<char>)
    ensures
        ({
            let kws = seq![("trigger"@, a), (key, b), ("target"@, c)];
            kw_lookup(kws, k) == if k == "target"@ {
                Some(c)
            } else if k == key {
                Some(b)
            } else if k == "trigger"@ {
                Some(a)
            } else {
                None::<SExprView>
            }
        }),
{
    let kws = seq![("trigger"@, a), (key, b), ("target"@, c)];
    let two = kws.drop_last();
    let one = two.drop_last();
    let zero = one.drop_last();
    assert(two == seq![("trigger"@, a), (key, b)]);
    assert(one == seq![("trigger"@, a)]);
    assert(zero == Seq::<(Seq<char>, SExprView)>::empty());
    assert(kw_lookup(zero, k) is None);
    assert(kw_lookup(one, k) == if k == "trigger"@ { Some(a) } else { None::<SExprView> });
    assert(kw_lookup(two, k) == if k == key { Some(b) } else { kw_lookup(one, k) });
}

/// A label command written with only its name, trigger and label reads
/// back with exactly those, in a catalog of one command, with the defaults
/// for everything else: `write` permission, PR-author trust, no allowlist.
pub proof fn law_label_command_round_trips(name: Seq<char>, trigger: Seq<char>, label: Seq<char>)
    requires
        plain_string(name),
        plain_string(trigger),
        plain_string(label),
    ensures
        parse_spec(
            "(defcommentcommand "@ + quoted(name) + " :trigger "@ + quoted(trigger) + " :target (label "@ + quoted(label)
                + "))"@,
        ) == Ok::<Seq<CommandView>, crate::spec_lisp::LintErrorView>(
            seq![
                CommandView {
                    name,
                    trigger,
                    min_permission: Permission::Write,
                    trust_pr_author: true,
                    allowlist: Seq::<Seq<char>>::empty(),
                    target: TargetView::Label { name: label },
                },
            ],
        ),
{
    let forms = seq![label_command_form(name, trigger, label)];
    lemma_label_form_plain(name, trigger, label);
    lemma_canonical_source(forms);
    lemma_label_form_text(name, trigger, label);
    lemma_label_form_denotes(name, trigger, label);
    assert(seq![label_command_form(name, trigger, label)][0] == label_command_form(name, trigger, label));
}

/// The canonical text of a keyed command form, with its keyword written
/// as one literal.
proof fn lemma_keyword_text(
    name: Seq<char>,
    trigger: Seq<char>,
    key: Seq<char>,
    value: Seq<char>,
    label: Seq<char>,
    spaced_key: Seq<char>,
)
    requires
        spaced_key == seq![' ', ':'] + key + seq![' '],
    ensures
        "(defcommentcommand "@ + quoted(name) + " :trigger "@ + quoted(trigger) + " :"@ + key + " "@ + value
            + " :target (label "@ + quoted(label) + "))"@ == "(defcommentcommand "@ + quoted(name) + " :trigger "@
            + quoted(trigger) + spaced_key + value + " :target (label "@ + quoted(label) + "))"@,
{
    reveal_strlit(" :");
    reveal_strlit(" ");
    let head = "(defcommentcommand "@ + quoted(name) + " :trigger "@ + quoted(trigger);
    assert(head + " :"@ + key + " "@ == head + spaced_key);
}

/// The keywords of a command form differ from one another.
proof fn lemma_command_keys_differ()
    ensures
        "trigger"@ != "target"@,
        "trigger"@ != "min-permission"@,
        "trigger"@ != "trust-pr-author"@,
        "trigger"@ != "allowlist"@,
        "target"@ != "min-permission"@,
        "target"@ != "trust-pr-author"@,
        "target"@ != "allowlist"@,
        "min-permission"@ != "trust-pr-author"@,
        "min-permission"@ != "allowlist"@,
        "trust-pr-author"@ != "allowlist"@,
{
    reveal_strlit("min-permission");
    reveal_strlit("trigger");
    reveal_strlit("target");
    reveal_strlit("trust-pr-author");
    reveal_strlit("allowlist");
    assert("trigger"@.len() != "target"@.len());
    assert("trigger"@.len() != "min-permission"@.len());
    assert("trigger"@.len() != "trust-pr-author"@.len());
    assert("trigger"@.len() != "allowlist"@.len());
    assert("target"@.len() != "min-permission"@.len());
    assert("target"@.len() != "trust-pr-author"@.len());
    assert("target"@.len() != "allowlist"@.len());
    assert("min-permission"@.len() != "trust-pr-author"@.len());
    assert("min-permission"@.len() != "allowlist"@.len());
    assert("trust-pr-author"@.len() != "allowlist"@.len());
}

proof fn lemma_min_permission_denotes(name: Seq<char>, trigger: Seq<char>, keyword: Seq<char>, label: Seq<char>)
    requires
        permission_keyword(keyword) is Some,
    ensures
        commands_from(seq![keyed_command_form(name, trigger, "min-permission"@, SExprView::Sym(keyword), label)], 0)
            == Ok::<Seq<CommandView>, LintErrorView>(
            seq![
                CommandView {
                    name,
                    trigger,
                    min_permission: permission_keyword(keyword).unwrap(),
                    trust_pr_author: true,
                    allowlist: Seq::<Seq<char>>::empty(),
                    target: TargetView::Label { name: label },
                },
            ],
        ),
{
    lemma_command_keys_differ();
    let key = "min-permission"@;
    let value = SExprView::Sym(keyword);
    let f = keyed_command_form(name, trigger, key, value, label);
    let forms = seq![f];
    let items = f->List_0;
    lemma_keyed_form_split(name, trigger, key, value, label);
    lemma_keyed_lookup(items[3], key, items[5], items[7], "trigger"@);
    lemma_keyed_lookup(items[3], key, items[5], items[7], "min-permission"@);
    lemma_keyed_lookup(items[3], key, items[5], items[7], "trust-pr-author"@);
    lemma_keyed_lookup(items[3], key, items[5], items[7], "allowlist"@);
    lemma_keyed_lookup(items[3], key, items[5], items[7], "target"@);
    lemma_label_target(label, crate::spec_lisp::command_context(name));
    let cmd = CommandView {
        name,
        trigger,
        min_permission: permission_keyword(keyword).unwrap(),
        trust_pr_author: true,
        allowlist: Seq::<Seq<char>>::empty(),
        target: TargetView::Label { name: label },
    };
    let kws = seq![("trigger"@, items[3]), (key, items[5]), ("target"@, items[7])];
    let ctx = crate::spec_lisp::command_context(name);

    assert(crate::spec_lisp::positional_str(seq![items[1]], 0, "defcommentcommand"@, "missing the command-name string"@)
        == Ok::<Seq<char>, LintErrorView>(name));
    assert(crate::spec_lisp::required_trigger(kws, ctx) == Ok::<Seq<char>, LintErrorView>(trigger));
    assert(crate::spec_lisp::optional_permission(kws, ctx) == Ok::<Permission, LintErrorView>(
        permission_keyword(keyword).unwrap(),
    ));
    assert(crate::spec_lisp::optional_trust(kws, ctx) == Ok::<bool, LintErrorView>(true));
    assert(crate::spec_lisp::optional_allowlist(kws, ctx) == Ok::<Seq<Seq<char>>, LintErrorView>(
        Seq::<Seq<char>>::empty(),
    ));
    assert(crate::spec_lisp::required_target(kws, ctx) == Ok::<TargetView, LintErrorView>(
        TargetView::Label { name: label },
    ));
    lemma_keyed_keys_known(items[3], key, items[5], items[7]);
    assert(spec_parse_command(items) == Ok::<CommandView, LintErrorView>(cmd));
    assert(commands_from(forms, 1) == Ok::<Seq<CommandView>, LintErrorView>(Seq::<CommandView>::empty()));
    assert(seq![cmd] + Seq::<CommandView>::empty() == seq![cmd]);
    assert(forms[0] == f);
}

proof fn lemma_permission_keyword_plain(keyword: Seq<char>)
    requires
        permission_keyword(keyword) is Some,
    ensures
        plain_symbol(keyword),
{
    reveal_strlit("none");
    reveal_strlit("read");
    reveal_strlit("triage");
    reveal_strlit("write");
    reveal_strlit("maintain");
    reveal_strlit("admin");
}

/// Every permission keyword of the catalog grammar, written as the value of
/// `:min-permission`, reads back as exactly its tier; the rest of the
/// command reads back as written, with the other defaults.
pub proof fn law_min_permission_round_trips(
    name: Seq<char>,
    trigger: Seq<char>,
    keyword: Seq<char>,
    label: Seq<char>,
)
    requires
        plain_string(name),
        plain_string(trigger),
        plain_string(label),
        permission_keyword(keyword) is Some,
    ensures
        parse_spec(
            "(defcommentcommand "@ + quoted(name) + " :trigger "@ + quoted(trigger) + " :min-permission "@ + keyword
                + " :target (label "@ + quoted(label) + "))"@,
        ) == Ok::<Seq<CommandView>, LintErrorView>(
            seq![
                CommandView {
                    name,
                    trigger,
                    min_permission: permission_keyword(keyword).unwrap(),
                    trust_pr_author: true,
                    allowlist: Seq::<Seq<char>>::empty(),
                    target: TargetView::Label { name: label },
                },
            ],
        ),
{
    reveal_strlit("min-permission");
    reveal_strlit(" :min-permission ");
    let key = "min-permission"@;
    let value = SExprView::Sym(keyword);
    assert(" :min-permission "@ == seq![' ', ':'] + key + seq![' ']);
    lemma_permission_keyword_plain(keyword);
    assert forall|k: int| 0 <= k < key.len() implies !is_delim(#[trigger] key[k]) by {}
    lemma_keyed_form_plain(name, trigger, key, value, label);
    let forms = seq![keyed_command_form(name, trigger, key, value, label)];
    lemma_canonical_source(forms);
    lemma_keyed_form_text(name, trigger, key, value, label);
    lemma_atom_text(value);
    lemma_keyword_text(name, trigger, key, keyword, label, " :min-permission "@);
    lemma_min_permission_denotes(name, trigger, keyword, label);
}

/// The canonical text of the strings `ls[i..]`: each quoted, separated by
/// one space.
pub open spec fn quoted_words(ls: Seq<Seq<char>>, i: int) -> Seq<char>
    decreases ls.len() - i,
{
    if i < 0 || i >= ls.len() {
        Seq::<char>::empty()
    } else if i == ls.len() - 1 {
        quoted(ls[i])
    } else {
        quoted(ls[i]) + seq![' '] + quoted_words(ls, i + 1)
    }
}

/// The canonical text of a list of strings: the quoted strings, separated
/// by one space, in parentheses.
pub open spec fn quoted_list(ls: Seq<Seq<char>>) -> Seq<char> {
    seq!['('] + quoted_words(ls, 0) + seq![')']
}

/// The S-expressions of a list of strings.
pub open spec fn string_items(ls: Seq<Seq<char>>) -> Seq<SExprView> {
    ls.map_values(|l: Seq<char>| SExprView::Str(l))
}

proof fn lemma_string_items_text(ls: Seq<Seq<char>>, i: int)
    requires
        0 <= i <= ls.len(),
    ensures
        items_text(string_items(ls), i) == quoted_words(ls, i),
    decreases ls.len() - i,
{
    let strs = string_items(ls);
    if i < ls.len() {
        lemma_atom_text(strs[i]);
        if i + 1 < ls.len() {
            lemma_string_items_text(ls, i + 1);
            lemma_atom_text(strs[i + 1]);
        }
    }
}

proof fn lemma_string_items_values(ls: Seq<Seq<char>>, i: int, ctx: Seq<char>)
    requires
        0 <= i <= ls.len(),
    ensures
        strings_from(string_items(ls), i, ctx) == Ok::<Seq<Seq<char>>, LintErrorView>(ls.subrange(i, ls.len() as int)),
    decreases ls.len() - i,
{
    if i < ls.len() {
        lemma_string_items_values(ls, i + 1, ctx);
        assert(seq![ls[i]] + ls.subrange(i + 1, ls.len() as int) == ls.subrange(i, ls.len() as int));
    } else {
        assert(ls.subrange(i, ls.len() as int) == Seq::<Seq<char>>::empty());
    }
}

proof fn lemma_allowlist_denotes(name: Seq<char>, trigger: Seq<char>, logins: Seq<Seq<char>>, label: Seq<char>)
    ensures
        commands_from(
            seq![keyed_command_form(name, trigger, "allowlist"@, SExprView::List(string_items(logins)), label)],
            0,
        ) == Ok::<Seq<CommandView>, LintErrorView>(
            seq![
                CommandView {
                    name,
                    trigger,
                    min_permission: Permission::Write,
                    trust_pr_author: true,
                    allowlist: logins,
                    target: TargetView::Label { name: label },
                },
            ],
        ),
{
    lemma_command_keys_differ();
    let key = "allowlist"@;
    let value = SExprView::List(string_items(logins));
    let f = keyed_command_form(name, trigger, key, value, label);
    let forms = seq![f];
    let items = f->List_0;
    lemma_keyed_form_split(name, trigger, key, value, label);
    lemma_keyed_lookup(items[3], key, items[5], items[7], "trigger"@);
    lemma_keyed_lookup(items[3], key, items[5], items[7], "min-permission"@);
    lemma_keyed_lookup(items[3], key, items[5], items[7], "trust-pr-author"@);
    lemma_keyed_lookup(items[3], key, items[5], items[7], "allowlist"@);
    lemma_keyed_lookup(items[3], key, items[5], items[7], "target"@);
    let ctx = crate::spec_lisp::command_context(name);
    lemma_label_target(label, ctx);
    lemma_string_items_values(logins, 0, ctx);
    assert(logins.subrange(0, logins.len() as int) == logins);
    let cmd = CommandView {
        name,
        trigger,
        min_permission: Permission::Write,
        trust_pr_author: true,
        allowlist: logins,
        target: TargetView::Label { name: label },
    };
    lemma_keyed_keys_known(items[3], key, items[5], items[7]);
    assert(spec_parse_command(items) == Ok::<CommandView, LintErrorView>(cmd));
    assert(commands_from(forms, 1) == Ok::<Seq<CommandView>, LintErrorView>(Seq::<CommandView>::empty()));
    assert(seq![cmd] + Seq::<CommandView>::empty() == seq![cmd]);
    assert(forms[0] == f);
}

/// An `:allowlist` of any length reads back as the same logins in the same
/// order, none dropped, merged or reordered; the rest of the command reads
/// back as written, with the other defaults.
pub proof fn law_allowlist_round_trips(name: Seq<char>, trigger: Seq<char>, logins: Seq<Seq<char>>, label: Seq<char>)
    requires
        plain_string(name),
        plain_string(trigger),
        plain_string(label),
        forall|k: int| 0 <= k < logins.len() ==> plain_string(#[trigger] logins[k]),
    ensures
        parse_spec(
            "(defcommentcommand "@ + quoted(name) + " :trigger "@ + quoted(trigger) + " :allowlist "@ + quoted_list(
                logins,
            ) + " :target (label "@ + quoted(label) + "))"@,
        ) == Ok::<Seq<CommandView>, LintErrorView>(
            seq![
                CommandView {
                    name,
                    trigger,
                    min_permission: Permission::Write,
                    trust_pr_author: true,
                    allowlist: logins,
                    target: TargetView::Label { name: label },
                },
            ],
        ),
{
    reveal_strlit("allowlist");
    reveal_strlit(" :allowlist ");
    let key = "allowlist"@;
    let strs = string_items(logins);
    let value = SExprView::List(strs);
    assert(" :allowlist "@ == seq![' ', ':'] + key + seq![' ']);
    assert forall|k: int| 0 <= k < strs.len() implies plain_sexpr(#[trigger] strs[k]) by {
        assert(plain_string(logins[k]));
    }
    lemma_plain_items_each(strs, 0);
    assert forall|k: int| 0 <= k < key.len() implies !is_delim(#[trigger] key[k]) by {}
    lemma_keyed_form_plain(name, trigger, key, value, label);
    let forms = seq![keyed_command_form(name, trigger, key, value, label)];
    lemma_canonical_source(forms);
    lemma_keyed_form_text(name, trigger, key, value, label);
    lemma_list_text(strs);
    lemma_string_items_text(logins, 0);
    assert(sexpr_text(value) == quoted_list(logins));
    lemma_keyword_text(name, trigger, key, quoted_list(logins), label, " :allowlist "@);
    lemma_allowlist_denotes(name, trigger, logins, label);
}

/// The canonical line of a label command.
pub open spec fn label_line(name: Seq<char>, trigger: Seq<char>, label: Seq<char>) -> Seq<char> {
    "(defcommentcommand "@ + quoted(name) + " :trigger "@ + quoted(trigger) + " :target (label "@ + quoted(label)
        + "))"@
}

/// The trigger `/t<i>` of the `i`-th numbered command.
pub open spec fn numbered_trigger(i: int) -> Seq<char> {
    "/t"@ + decimal(i as nat)
}

/// One line per name from `names[i]` on, newline-separated: the `i`-th a
/// label command named `names[i]`, triggered by `/t<i>`, labelling `l`.
pub open spec fn numbered_catalog(names: Seq<Seq<char>>, i: int) -> Seq<char>
    decreases names.len() - i,
{
    if i < 0 || i >= names.len() {
        Seq::<char>::empty()
    } else if i == names.len() - 1 {
        label_line(names[i], numbered_trigger(i), "l"@)
    } else {
        label_line(names[i], numbered_trigger(i), "l"@) + seq!['\n'] + numbered_catalog(names, i + 1)
    }
}

/// The command the `i`-th line of a numbered catalog denotes.
pub open spec fn numbered_command(names: Seq<Seq<char>>, i: int) -> CommandView {
    CommandView {
        name: names[i],
        trigger: numbered_trigger(i),
        min_permission: Permission::Write,
        trust_pr_author: true,
        allowlist: Seq::<Seq<char>>::empty(),
        target: TargetView::Label { name: "l"@ },
    }
}

proof fn lemma_digit_char(d: u8)
    ensures
        '0' <= digit_char(d) <= '9',
{
}

proof fn lemma_decimal_digits(n: nat)
    ensures
        forall|k: int| 0 <= k < decimal(n).len() ==> '0' <= #[trigger] decimal(n)[k] <= '9',
    decreases n,
{
    let c = digit_char((n % 10) as u8);
    lemma_digit_char((n % 10) as u8);
    if n >= 10 {
        lemma_decimal_digits(n / 10);
        let d = decimal(n);
        let p = decimal(n / 10);
        assert(d == p.push(c));
        assert forall|k: int| 0 <= k < d.len() implies '0' <= #[trigger] d[k] <= '9' by {
            if k < p.len() {
                assert(d[k] == p[k]);
            }
        }
    } else {
        assert(decimal(n) == seq![c]);
    }
}

proof fn lemma_numbered_trigger_plain(i: int)
    ensures
        plain_string(numbered_trigger(i)),
{
    reveal_strlit("/t");
    lemma_decimal_digits(i as nat);
    let t = numbered_trigger(i);
    assert forall|k: int| 0 <= k < t.len() implies #[trigger] t[k] != '"' && t[k] != '\\' by {
        if k >= 2 {
            assert(t[k] == decimal(i as nat)[k - 2]);
        }
    }
}

/// The forms of a numbered catalog.
pub open spec fn numbered_forms(names: Seq<Seq<char>>) -> Seq<SExprView> {
    Seq::new(names.len(), |i: int| label_command_form(names[i], numbered_trigger(i), "l"@))
}

proof fn lemma_numbered_text(names: Seq<Seq<char>>, i: int)
    requires
        0 <= i < names.len(),
    ensures
        items_text(numbered_forms(names), i) == numbered_catalog(names, i),
    decreases names.len() - i,
{
    let forms = numbered_forms(names);
    let f = forms[i];
    lemma_label_form_text(names[i], numbered_trigger(i), "l"@);
    assert(items_tokens(seq![f], 1) == Seq::<TokenView>::empty());
    assert(items_tokens(seq![f], 0) == sexpr_tokens(f));
    lemma_atom_text(f);
    if i + 1 < names.len() {
        lemma_numbered_text(names, i + 1);
        lemma_atom_text(forms[i + 1]);
        assert(item_gap(f, forms[i + 1]) == seq!['\n']);
    }
}

proof fn lemma_numbered_commands(names: Seq<Seq<char>>, i: int)
    requires
        0 <= i <= names.len(),
    ensures
        commands_from(numbered_forms(names), i) == Ok::<Seq<CommandView>, LintErrorView>(
            Seq::new(names.len(), |k: int| numbered_command(names, k)).subrange(i, names.len() as int),
        ),
    decreases names.len() - i,
{
    let forms = numbered_forms(names);
    let all = Seq::new(names.len(), |k: int| numbered_command(names, k));
    if i < names.len() {
        lemma_numbered_commands(names, i + 1);
        lemma_label_command_parses(names[i], numbered_trigger(i), "l"@);
        assert(seq![all[i]] + all.subrange(i + 1, names.len() as int) == all.subrange(i, names.len() as int));
    } else {
        assert(all.subrange(i, names.len() as int) == Seq::<CommandView>::empty());
    }
}

/// A catalog of any number of label commands, one per line, reads back as
/// the same number of commands in source order: none dropped, merged or
/// reordered, each with its own name and trigger.
pub proof fn law_commands_keep_source_order(names: Seq<Seq<char>>)
    requires
        forall|k: int| 0 <= k < names.len() ==> plain_string(#[trigger] names[k]),
    ensures
        parse_spec(numbered_catalog(names, 0)) == Ok::<Seq<CommandView>, LintErrorView>(
            Seq::new(names.len(), |k: int| numbered_command(names, k)),
        ),
{
    let forms = numbered_forms(names);
    let all = Seq::new(names.len(), |k: int| numbered_command(names, k));
    reveal_strlit("l");
    assert(plain_string("l"@));
    assert forall|k: int| 0 <= k < forms.len() implies plain_sexpr(#[trigger] forms[k]) by {
        lemma_numbered_trigger_plain(k);
        lemma_label_form_plain(names[k], numbered_trigger(k), "l"@);
        let one = seq![forms[k]];
        assert(plain_items(one, 0) == (plain_sexpr(one[0]) && plain_items(one, 1)));
    }
    lemma_plain_items_each(forms, 0);
    lemma_canonical_source(forms);
    lemma_numbered_commands(names, 0);
    assert(all.subrange(0, names.len() as int) == all);
    if names.len() > 0 {
        lemma_forms_text(forms);
        lemma_numbered_text(names, 0);
    } else {
        assert(items_tokens(forms, 0) == Seq::<TokenView>::empty());
        assert(numbered_catalog(names, 0) == Seq::<char>::empty());
        assert(layout(Seq::<TokenView>::empty()) == Seq::<char>::empty());
        assert(all == Seq::<CommandView>::empty());
    }
}


/// The commands of `forms[i..]`, when they read, are one per form and in
/// the forms' order.
pub proof fn lemma_commands_follow_forms(forms: Seq<SExprView>, i: int)
    requires
        0 <= i <= forms.len(),
        commands_from(forms, i) is Ok,
    ensures
        ({
            let cmds = commands_from(forms, i)->Ok_0;
            &&& cmds.len() == forms.len() - i
            &&& forall|k: int|
                i <= k < forms.len() ==> ((#[trigger] forms[k]) matches SExprView::List(items) && spec_parse_command(
                    items,
                ) == Ok::<CommandView, LintErrorView>(cmds[k - i]))
        }),
    decreases forms.len() - i,
{
    if i < forms.len() {
        lemma_commands_follow_forms(forms, i + 1);
        let cmds = commands_from(forms, i)->Ok_0;
        let rest = commands_from(forms, i + 1)->Ok_0;
        assert(cmds == seq![cmds[0]] + rest);
        assert forall|k: int| i <= k < forms.len() implies (#[trigger] forms[k]) matches SExprView::List(items)
            && spec_parse_command(items) == Ok::<CommandView, LintErrorView>(cmds[k - i]) by {
            if k > i {
                assert(cmds[k - i] == rest[k - (i + 1)]);
            }
        }
    }
}

/// Any catalog that reads gives one command per top-level form, in source
/// order: the k-th command is what the k-th `(defcommentcommand ...)` form
/// says, and none is dropped, merged or reordered.
pub proof fn law_catalog_keeps_form_order(src: Seq<char>)
    requires
        parse_spec(src) is Ok,
    ensures
        lex(src) matches Ok(ts) && parse_forms(ts, 0) matches Ok(forms) && {
            let cmds = parse_spec(src)->Ok_0;
            &&& cmds.len() == forms.len()
            &&& forall|k: int|
                0 <= k < forms.len() ==> ((#[trigger] forms[k]) matches SExprView::List(items) && spec_parse_command(
                    items,
                ) == Ok::<CommandView, LintErrorView>(cmds[k]))
        },
{
    let ts = lex(src)->Ok_0;
    let forms = parse_forms(ts, 0)->Ok_0;
    lemma_commands_follow_forms(forms, 0);
}

} // verus!
