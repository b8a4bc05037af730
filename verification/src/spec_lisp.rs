//! The reader for the `(defcommentcommand ...)` authoring form: a
//! tokenizer, an S-expression parser and a semantic walk into a
//! [`CatalogSpec`]. A consuming repo's `.github/aldrava.lisp` is data:
//!
//! ```lisp
//! (defcommentcommand "test"
//!   :trigger "/test"
//!   :min-permission write
//!   :trust-pr-author true
//!   :target (label "ci/run-tests"))
//! ```
//!
//! Each stage is specified by a spec function over the characters of the
//! source, and [`parse`] is proved to compute exactly `parse_spec`.

use vstd::prelude::*;

use crate::spec::{
    default_min_permission, default_true, opt_view, parse_permission_keyword, permission_keyword,
    spec_default_min_permission, strings_view, CatalogSpec, CommandView, CommentCommandSpec,
    DispatchTarget, InputMap, Permission, TargetView,
};
use crate::text::{byte_offset, chars_of, debug_quoted, decimal, quote_debug, is_whitespace, is_ws, lemma_byte_step, owned, push_char, push_decimal, push_str, push_string, str_eq, string_of, utf8_width};

verus! {

// ---------------------------------------------------------------------------
// Errors

/// The view of a [`LintError`].
pub enum LintErrorView {
    Syntax(Seq<char>),
    Semantic { form: Seq<char>, message: Seq<char> },
}

/// Why a catalog source was refused: a syntax error (tokens, parentheses,
/// top-level shape) or a semantic error naming the offending form.
#[derive(Debug, Clone, PartialEq, Eq)]
pub enum LintError {
    Syntax(String),
    Semantic { form: String, message: String },
}

impl View for LintError {
    type V = LintErrorView;

    open spec fn view(&self) -> LintErrorView {
        match self {
            LintError::Syntax(m) => LintErrorView::Syntax(m@),
            LintError::Semantic { form, message } => LintErrorView::Semantic {
                form: form@,
                message: message@,
            },
        }
    }
}

/// The text of a lint error: the message of a syntax error, or
/// ``in `<form>`: <message>`` for a semantic one.
pub open spec fn lint_error_text(e: LintErrorView) -> Seq<char> {
    match e {
        LintErrorView::Syntax(m) => m,
        LintErrorView::Semantic { form, message } => "in `"@ + form + "`: "@ + message,
    }
}

impl LintError {
    /// The error's text, as the CLI prints it.
    pub fn to_string(&self) -> (s: String)
        ensures
            s@ == lint_error_text(self@),
    {
        match self {
            LintError::Syntax(m) => m.clone(),
            LintError::Semantic { form, message } => {
                let mut s = owned("in `");
                push_string(&mut s, form);
                push_str(&mut s, "`: ");
                push_string(&mut s, message);
                s
            },
        }
    }
}

// ---------------------------------------------------------------------------
// Tokens

/// The view of a token.
pub enum TokenView {
    Open,
    Close,
    Sym(Seq<char>),
    Str(Seq<char>),
}

#[derive(Debug)]
enum Token {
    Open,
    Close,
    Sym(String),
    Str(String),
}

impl View for Token {
    type V = TokenView;

    closed spec fn view(&self) -> TokenView {
        match self {
            Token::Open => TokenView::Open,
            Token::Close => TokenView::Close,
            Token::Sym(s) => TokenView::Sym(s@),
            Token::Str(s) => TokenView::Str(s@),
        }
    }
}

/// The views of a token list.
spec fn tokens_view(ts: Seq<Token>) -> Seq<TokenView> {
    ts.map_values(|t: Token| t@)
}

/// A character that ends a bare symbol.
pub open spec fn is_delim(c: char) -> bool {
    is_ws(c) || c == '(' || c == ')' || c == ';'
}

/// Index of the first symbol delimiter at or after `i` (or the end).
pub open spec fn symbol_end(s: Seq<char>, i: int) -> int
    decreases s.len() - i,
{
    if 0 <= i < s.len() && !is_delim(s[i]) {
        symbol_end(s, i + 1)
    } else {
        i
    }
}

/// Index of the first newline at or after `i` (or the end).
pub open spec fn line_end(s: Seq<char>, i: int) -> int
    decreases s.len() - i,
{
    if 0 <= i < s.len() && s[i] != '\n' {
        line_end(s, i + 1)
    } else {
        i
    }
}

pub proof fn lemma_symbol_end(s: Seq<char>, i: int)
    requires
        0 <= i <= s.len(),
    ensures
        i <= symbol_end(s, i) <= s.len(),
    decreases s.len() - i,
{
    if i < s.len() && !is_delim(s[i]) {
        lemma_symbol_end(s, i + 1);
    }
}

pub proof fn lemma_line_end(s: Seq<char>, i: int)
    requires
        0 <= i <= s.len(),
    ensures
        i <= line_end(s, i) <= s.len(),
    decreases s.len() - i,
{
    if i < s.len() && s[i] != '\n' {
        lemma_line_end(s, i + 1);
    }
}

/// The character an escape `\c` stands for inside a string literal: `\n` is
/// a newline, and any other `\c` is `c` itself (so `\"` and `\\`).
pub open spec fn unescape(c: char) -> char {
    if c == 'n' {
        '\n'
    } else {
        c
    }
}

/// How a string literal can fail to end.
pub enum StrFault {
    /// The input ends before the closing quote.
    Unterminated,
    /// The input ends right after a backslash.
    DanglingEscape,
}

/// The body of a string literal whose opening quote precedes `s[i]`: its
/// characters and the index just past its closing quote.
pub open spec fn string_body(s: Seq<char>, i: int) -> Result<(Seq<char>, int), StrFault>
    decreases s.len() - i,
{
    if i < 0 || i >= s.len() {
        Err(StrFault::Unterminated)
    } else if s[i] == '"' {
        Ok((Seq::<char>::empty(), i + 1))
    } else if s[i] == '\\' {
        if i + 1 >= s.len() {
            Err(StrFault::DanglingEscape)
        } else {
            match string_body(s, i + 2) {
                Ok((rest, j)) => Ok((seq![unescape(s[i + 1])] + rest, j)),
                Err(f) => Err(f),
            }
        }
    } else {
        match string_body(s, i + 1) {
            Ok((rest, j)) => Ok((seq![s[i]] + rest, j)),
            Err(f) => Err(f),
        }
    }
}

pub proof fn lemma_string_body_end(s: Seq<char>, i: int)
    ensures
        string_body(s, i) matches Ok((_, j)) ==> i < j <= s.len(),
    decreases s.len() - i,
{
    if 0 <= i < s.len() && s[i] != '"' {
        if s[i] == '\\' {
            if i + 1 < s.len() {
                lemma_string_body_end(s, i + 2);
            }
        } else {
            lemma_string_body_end(s, i + 1);
        }
    }
}

/// The message for a string literal left open at the end of the input.
pub open spec fn msg_unterminated(byte: nat) -> Seq<char> {
    "unterminated string starting near byte "@ + decimal(byte)
}

/// The message for a backslash at the very end of the input.
pub open spec fn msg_dangling_escape() -> Seq<char> {
    "unterminated string escape at end of input"@
}

/// `t` in front of the tokens of a successful tokenization.
pub open spec fn cons_token(t: TokenView, r: Result<Seq<TokenView>, Seq<char>>) -> Result<Seq<TokenView>, Seq<char>> {
    match r {
        Ok(ts) => Ok(seq![t] + ts),
        Err(e) => Err(e),
    }
}

/// `pre` in front of the tokens of a successful tokenization.
pub open spec fn prepend_tokens(pre: Seq<TokenView>, r: Result<Seq<TokenView>, Seq<char>>) -> Result<Seq<TokenView>, Seq<char>> {
    match r {
        Ok(ts) => Ok(pre + ts),
        Err(e) => Err(e),
    }
}

/// The tokens of `s[i..]`, or the message of the first lexical error.
/// Whitespace separates tokens; `;` starts a comment running to the end of
/// the line; `(` and `)` are tokens of their own; `"` starts a string
/// literal; anything else starts a bare symbol running up to the next
/// whitespace, parenthesis or `;`.
pub open spec fn lex_from(s: Seq<char>, i: int) -> Result<Seq<TokenView>, Seq<char>>
    decreases s.len() - i,
{
    if i < 0 || i >= s.len() {
        Ok(Seq::<TokenView>::empty())
    } else {
        let c = s[i];
        if is_ws(c) {
            lex_from(s, i + 1)
        } else if c == ';' {
            proof {
                lemma_line_end(s, i + 1);
            }
            lex_from(s, line_end(s, i + 1))
        } else if c == '(' {
            cons_token(TokenView::Open, lex_from(s, i + 1))
        } else if c == ')' {
            cons_token(TokenView::Close, lex_from(s, i + 1))
        } else if c == '"' {
            proof {
                lemma_string_body_end(s, i + 1);
            }
            match string_body(s, i + 1) {
                Ok((body, j)) => cons_token(TokenView::Str(body), lex_from(s, j)),
                Err(StrFault::Unterminated) => Err(msg_unterminated(byte_offset(s, i))),
                Err(StrFault::DanglingEscape) => Err(msg_dangling_escape()),
            }
        } else {
            proof {
                lemma_symbol_end(s, i + 1);
            }
            let j = symbol_end(s, i + 1);
            cons_token(TokenView::Sym(s.subrange(i, j)), lex_from(s, j))
        }
    }
}

/// The tokens of a whole source.
pub open spec fn lex(s: Seq<char>) -> Result<Seq<TokenView>, Seq<char>> {
    lex_from(s, 0)
}

struct Tokenizer {
    chars: Vec<char>,
}

impl Tokenizer {
    fn new(src: &str) -> (t: Tokenizer)
        ensures
            t.chars@ == src@,
    {
        Tokenizer { chars: chars_of(src) }
    }

    fn tokenize(self) -> (r: Result<Vec<Token>, LintError>)
        ensures
            match r {
                Ok(ts) => lex(self.chars@) == Ok::<Seq<TokenView>, Seq<char>>(tokens_view(ts@)),
                Err(e) => lex(self.chars@) matches Err(m) && e@ == LintErrorView::Syntax(m),
            },
    {
        let s = self.chars.as_slice();
        let n = s.len();
        let ghost sv = s@;
        let mut out: Vec<Token> = Vec::new();
        let mut i: usize = 0;
        let mut byte: u128 = 0;
        proof {
            assert(sv.take(0) == Seq::<char>::empty());
        }
        while i < n
            invariant
                n == sv.len(),
                s@ == sv,
                self.chars@ == sv,
                0 <= i <= n,
                byte == byte_offset(sv, i as int),
                byte <= 4 * i,
                lex(sv) == prepend_tokens(tokens_view(out@), lex_from(sv, i as int)),
            decreases n - i,
        {
            let c = s[i];
            let ghost i0 = i as int;
            let ghost before = tokens_view(out@);
            proof {
                lemma_byte_step(sv, i0);
            }
            if is_whitespace(c) {
                byte = byte + utf8_width(c) as u128;
                i = i + 1;
            } else if c == ';' {
                byte = byte + utf8_width(c) as u128;
                i = i + 1;
                while i < n && s[i] != '\n'
                    invariant
                        n == sv.len(),
                        s@ == sv,
                        i0 < i <= n,
                        byte == byte_offset(sv, i as int),
                        byte <= 4 * i,
                        line_end(sv, i0 + 1) == line_end(sv, i as int),
                    decreases n - i,
                {
                    proof {
                        lemma_byte_step(sv, i as int);
                    }
                    byte = byte + utf8_width(s[i]) as u128;
                    i = i + 1;
                }
            } else if c == '(' {
                byte = byte + utf8_width(c) as u128;
                i = i + 1;
                out.push(Token::Open);
                proof {
                    assert(tokens_view(out@) == before + seq![TokenView::Open]);
                    assert forall|ts: Seq<TokenView>| before + (seq![TokenView::Open] + ts) == tokens_view(out@) + ts by {}
                }
            } else if c == ')' {
                byte = byte + utf8_width(c) as u128;
                i = i + 1;
                out.push(Token::Close);
                proof {
                    assert(tokens_view(out@) == before + seq![TokenView::Close]);
                    assert forall|ts: Seq<TokenView>| before + (seq![TokenView::Close] + ts) == tokens_view(out@) + ts by {}
                }
            } else if c == '"' {
                let start_byte = byte;
                byte = byte + utf8_width(c) as u128;
                i = i + 1;
                let mut acc = String::new();
                let ghost body_start = i as int;
                loop
                    invariant_except_break
                        n == sv.len(),
                        s@ == sv,
                        self.chars@ == sv,
                        body_start <= i <= n,
                        body_start == i0 + 1,
                        0 <= i0 < n,
                        sv[i0] == '"',
                        start_byte == byte_offset(sv, i0),
                        lex(sv) == prepend_tokens(tokens_view(out@), lex_from(sv, i0)),
                        byte == byte_offset(sv, i as int),
                        byte <= 4 * i,
                        string_body(sv, body_start) == match string_body(sv, i as int) {
                            Ok((rest, j)) => Ok((acc@ + rest, j)),
                            Err(f) => Err::<(Seq<char>, int), StrFault>(f),
                        },
                    ensures
                        n == sv.len(),
                        s@ == sv,
                        body_start <= i <= n,
                        byte == byte_offset(sv, i as int),
                        byte <= 4 * i,
                        string_body(sv, body_start) == Ok::<(Seq<char>, int), StrFault>((acc@, i as int)),
                    decreases n - i,
                {
                    if i >= n {
                        let mut m = owned("unterminated string starting near byte ");
                        push_decimal(&mut m, start_byte);
                        proof {
                            assert(string_body(sv, i as int) == Err::<(Seq<char>, int), StrFault>(StrFault::Unterminated));
                            assert(lex_from(sv, i0) == Err::<Seq<TokenView>, Seq<char>>(msg_unterminated(byte_offset(sv, i0))));
                        }
                        return Err(LintError::Syntax(m));
                    }
                    let d = s[i];
                    proof {
                        lemma_byte_step(sv, i as int);
                    }
                    byte = byte + utf8_width(d) as u128;
                    i = i + 1;
                    if d == '"' {
                        proof {
                            assert(acc@ + Seq::<char>::empty() == acc@);
                        }
                        break;
                    } else if d == '\\' {
                        if i >= n {
                            proof {
                                assert(lex_from(sv, i0) == Err::<Seq<TokenView>, Seq<char>>(msg_dangling_escape()));
                            }
                            return Err(LintError::Syntax(owned("unterminated string escape at end of input")));
                        }
                        let e = s[i];
                        proof {
                            lemma_byte_step(sv, i as int);
                        }
                        byte = byte + utf8_width(e) as u128;
                        i = i + 1;
                        let u = if e == 'n' { '\n' } else { e };
                        let ghost acc0 = acc@;
                        push_char(&mut acc, u);
                        proof {
                            assert forall|rest: Seq<char>| acc0 + (seq![u] + rest) == acc@ + rest by {}
                        }
                    } else {
                        let ghost acc0 = acc@;
                        push_char(&mut acc, d);
                        proof {
                            assert forall|rest: Seq<char>| acc0 + (seq![d] + rest) == acc@ + rest by {}
                        }
                    }
                }
                let ghost body = acc@;
                out.push(Token::Str(acc));
                proof {
                    assert(tokens_view(out@) == before + seq![TokenView::Str(body)]);
                    assert forall|ts: Seq<TokenView>| before + (seq![TokenView::Str(body)] + ts) == tokens_view(out@) + ts by {}
                }
            } else {
                let start = i;
                byte = byte + utf8_width(c) as u128;
                i = i + 1;
                while i < n && !(is_whitespace(s[i]) || s[i] == '(' || s[i] == ')' || s[i] == ';')
                    invariant
                        n == sv.len(),
                        s@ == sv,
                        i0 < i <= n,
                        start == i0,
                        byte == byte_offset(sv, i as int),
                        byte <= 4 * i,
                        symbol_end(sv, i0 + 1) == symbol_end(sv, i as int),
                    decreases n - i,
                {
                    proof {
                        lemma_byte_step(sv, i as int);
                    }
                    byte = byte + utf8_width(s[i]) as u128;
                    i = i + 1;
                }
                let sym = string_of(s, start, i);
                let ghost sv_sym = sym@;
                out.push(Token::Sym(sym));
                proof {
                    assert(tokens_view(out@) == before + seq![TokenView::Sym(sv_sym)]);
                    assert forall|ts: Seq<TokenView>| before + (seq![TokenView::Sym(sv_sym)] + ts) == tokens_view(out@) + ts by {}
                }
            }
        }
        proof {
            assert(tokens_view(out@) + Seq::<TokenView>::empty() == tokens_view(out@));
        }
        Ok(out)
    }
}


// ---------------------------------------------------------------------------
// S-expressions

/// The view of an S-expression.
pub enum SExprView {
    Sym(Seq<char>),
    Str(Seq<char>),
    List(Seq<SExprView>),
}

#[derive(Debug)]
enum SExpr {
    Sym(String),
    Str(String),
    List(Vec<SExpr>),
}

impl View for SExpr {
    type V = SExprView;

    closed spec fn view(&self) -> SExprView
        decreases self,
    {
        match self {
            SExpr::Sym(s) => SExprView::Sym(s@),
            SExpr::Str(s) => SExprView::Str(s@),
            SExpr::List(items) => SExprView::List(
                Seq::new(
                    items@.len(),
                    |i: int|
                        if 0 <= i < items@.len() {
                            items@[i].view()
                        } else {
                            SExprView::Sym(Seq::<char>::empty())
                        },
                ),
            ),
        }
    }
}

spec fn exprs_view(v: Seq<SExpr>) -> Seq<SExprView> {
    v.map_values(|e: SExpr| e@)
}

proof fn lemma_list_view(items: Vec<SExpr>)
    ensures
        SExpr::List(items)@ == SExprView::List(exprs_view(items@)),
{
    assert(SExpr::List(items)@ matches SExprView::List(v) && v =~= exprs_view(items@));
}

/// How an S-expression prints in messages: symbols bare, strings quoted and
/// escaped as `Debug` renders them, lists in parentheses with their items
/// separated by single spaces.
pub open spec fn render(e: SExprView) -> Seq<char>
    decreases e, 0int,
{
    match e {
        SExprView::Sym(s) => s,
        SExprView::Str(s) => debug_quoted(s),
        SExprView::List(items) => "("@ + render_items(items, 0) + ")"@,
    }
}

/// `items[i..]` rendered and separated by single spaces (a leading space
/// unless `i` is the first item).
pub open spec fn render_items(items: Seq<SExprView>, i: int) -> Seq<char>
    decreases items, items.len() - i,
{
    if i < 0 || i >= items.len() {
        Seq::<char>::empty()
    } else {
        (if i > 0 { " "@ } else { Seq::<char>::empty() }) + render(items[i]) + render_items(items, i + 1)
    }
}

impl SExpr {
    fn push_render(&self, out: &mut String)
        ensures
            final(out)@ == old(out)@ + render(self@),
        decreases self@,
    {
        match self {
            SExpr::Sym(s) => push_string(out, s),
            SExpr::Str(s) => {
                let q = quote_debug(s.as_str());
                push_string(out, &q);
            },
            SExpr::List(items) => {
                proof {
                    lemma_list_view(*items);
                }
                let ghost iv = exprs_view(items@);
                let ghost start = out@;
                push_str(out, "(");
                let mut i: usize = 0;
                while i < items.len()
                    invariant
                        0 <= i <= items@.len(),
                        iv == exprs_view(items@),
                        self@ == SExprView::List(iv),
                        out@ + render_items(iv, i as int) == start + "("@ + render_items(iv, 0),
                    decreases items.len() - i,
                {
                    let ghost before = out@;
                    if i > 0 {
                        push_str(out, " ");
                    }
                    proof {
                        assert(iv[i as int] == items@[i as int]@);
                        assert(decreases_to!(self@ => self@->List_0));
                        assert(decreases_to!(iv => iv[i as int]));
                    }
                    items[i].push_render(out);
                    proof {
                        assert(out@ == before + (if i > 0 { " "@ } else { Seq::<char>::empty() }) + render(iv[i as int]));
                    }
                    i = i + 1;
                }
                push_str(out, ")");
            },
        }
    }

    fn render(&self) -> (s: String)
        ensures
            s@ == render(self@),
    {
        let mut s = String::new();
        self.push_render(&mut s);
        s
    }
}

/// The S-expression starting at token `pos`, and the index of the token
/// after it; or the message of the first syntax error.
pub open spec fn parse_expr(ts: Seq<TokenView>, pos: int) -> Result<(SExprView, int), Seq<char>>
    decreases ts.len() - pos, 0int,
{
    if pos < 0 || pos >= ts.len() {
        Err("unexpected end of input"@)
    } else {
        match ts[pos] {
            TokenView::Open => match parse_items(ts, pos + 1) {
                Ok((items, next)) => Ok((SExprView::List(items), next)),
                Err(m) => Err(m),
            },
            TokenView::Close => Err("unexpected `)` with no matching `(`"@),
            TokenView::Sym(s) => Ok((SExprView::Sym(s), pos + 1)),
            TokenView::Str(s) => Ok((SExprView::Str(s), pos + 1)),
        }
    }
}

/// The items of a list whose `(` precedes token `cur`, and the index of the
/// token after its `)`. (Each item ends strictly after it starts, so the
/// `next <= cur` branch is never taken; it makes termination evident.)
pub open spec fn parse_items(ts: Seq<TokenView>, cur: int) -> Result<(Seq<SExprView>, int), Seq<char>>
    decreases ts.len() - cur, 1int,
{
    if cur < 0 || cur >= ts.len() {
        Err("unexpected end of input inside `(...)`; missing `)`"@)
    } else if ts[cur] is Close {
        Ok((Seq::<SExprView>::empty(), cur + 1))
    } else {
        match parse_expr(ts, cur) {
            Ok((e, next)) => if next <= cur || next > ts.len() {
                Err(Seq::<char>::empty())
            } else {
                match parse_items(ts, next) {
                    Ok((rest, end)) => Ok((seq![e] + rest, end)),
                    Err(m) => Err(m),
                }
            },
            Err(m) => Err(m),
        }
    }
}

proof fn lemma_parse_bounds(ts: Seq<TokenView>, pos: int)
    ensures
        parse_expr(ts, pos) matches Ok((_, next)) ==> pos < next <= ts.len(),
        parse_items(ts, pos) matches Ok((_, next)) ==> pos < next <= ts.len(),
    decreases ts.len() - pos,
{
    if 0 <= pos < ts.len() {
        lemma_parse_bounds(ts, pos + 1);
        if !(ts[pos] is Close) {
            if let Ok((e, next)) = parse_expr(ts, pos) {
                if pos < next <= ts.len() {
                    lemma_parse_bounds(ts, next);
                }
            }
        }
    }
}

/// The forms of a token list from `pos` on.
pub open spec fn parse_forms(ts: Seq<TokenView>, pos: int) -> Result<Seq<SExprView>, Seq<char>>
    decreases ts.len() - pos,
{
    if pos < 0 || pos >= ts.len() {
        Ok(Seq::<SExprView>::empty())
    } else {
        match parse_expr(ts, pos) {
            Ok((e, next)) => if next <= pos || next > ts.len() {
                Err(Seq::<char>::empty())
            } else {
                match parse_forms(ts, next) {
                    Ok(rest) => Ok(seq![e] + rest),
                    Err(m) => Err(m),
                }
            },
            Err(m) => Err(m),
        }
    }
}

fn parse_one(tokens: &[Token], pos: usize) -> (r: Result<(SExpr, usize), LintError>)
    requires
        pos <= tokens@.len(),
    ensures
        match r {
            Ok((e, next)) => parse_expr(tokens_view(tokens@), pos as int) == Ok::<(SExprView, int), Seq<char>>((e@, next as int)),
            Err(err) => parse_expr(tokens_view(tokens@), pos as int) matches Err(m) && err@ == LintErrorView::Syntax(m),
        },
    decreases tokens@.len() - pos,
{
    let ghost ts = tokens_view(tokens@);
    proof {
        lemma_parse_bounds(ts, pos as int);
    }
    if pos >= tokens.len() {
        return Err(LintError::Syntax(owned("unexpected end of input")));
    }
    match &tokens[pos] {
        Token::Open => {
            let mut items: Vec<SExpr> = Vec::new();
            let mut cur = pos + 1;
            loop
                invariant
                    pos < cur <= tokens@.len(),
                    ts == tokens_view(tokens@),
                    ts[pos as int] is Open,
                    parse_items(ts, pos + 1) == match parse_items(ts, cur as int) {
                        Ok((rest, end)) => Ok((exprs_view(items@) + rest, end)),
                        Err(m) => Err::<(Seq<SExprView>, int), Seq<char>>(m),
                    },
                decreases tokens@.len() - cur,
            {
                proof {
                    lemma_parse_bounds(ts, cur as int);
                }
                if cur >= tokens.len() {
                    return Err(LintError::Syntax(owned("unexpected end of input inside `(...)`; missing `)`")));
                }
                if let Token::Close = &tokens[cur] {
                    proof {
                        lemma_list_view(items);
                        assert(exprs_view(items@) + Seq::<SExprView>::empty() == exprs_view(items@));
                    }
                    return Ok((SExpr::List(items), cur + 1));
                }
                let (e, next) = parse_one(tokens, cur)?;
                let ghost ev = e@;
                let ghost before = exprs_view(items@);
                items.push(e);
                proof {
                    assert(exprs_view(items@) == before.push(ev));
                    assert forall|rest: Seq<SExprView>| before + (seq![ev] + rest) == exprs_view(items@) + rest by {}
                }
                cur = next;
            }
        },
        Token::Close => Err(LintError::Syntax(owned("unexpected `)` with no matching `(`"))),
        Token::Sym(s) => Ok((SExpr::Sym(s.clone()), pos + 1)),
        Token::Str(s) => Ok((SExpr::Str(s.clone()), pos + 1)),
    }
}

fn parse_all(tokens: &[Token]) -> (r: Result<Vec<SExpr>, LintError>)
    ensures
        match r {
            Ok(forms) => parse_forms(tokens_view(tokens@), 0) == Ok::<Seq<SExprView>, Seq<char>>(exprs_view(forms@)),
            Err(err) => parse_forms(tokens_view(tokens@), 0) matches Err(m) && err@ == LintErrorView::Syntax(m),
        },
{
    let ghost ts = tokens_view(tokens@);
    let mut pos: usize = 0;
    let mut forms: Vec<SExpr> = Vec::new();
    while pos < tokens.len()
        invariant
            0 <= pos <= tokens@.len(),
            ts == tokens_view(tokens@),
            parse_forms(ts, 0) == match parse_forms(ts, pos as int) {
                Ok(rest) => Ok(exprs_view(forms@) + rest),
                Err(m) => Err::<Seq<SExprView>, Seq<char>>(m),
            },
        decreases tokens@.len() - pos,
    {
        proof {
            lemma_parse_bounds(ts, pos as int);
        }
        let (expr, next) = parse_one(tokens, pos)?;
        let ghost ev = expr@;
        let ghost before = exprs_view(forms@);
        forms.push(expr);
        proof {
            assert(exprs_view(forms@) == before.push(ev));
            assert forall|rest: Seq<SExprView>| before + (seq![ev] + rest) == exprs_view(forms@) + rest by {}
        }
        pos = next;
    }
    proof {
        assert(exprs_view(forms@) + Seq::<SExprView>::empty() == exprs_view(forms@));
    }
    Ok(forms)
}


// ---------------------------------------------------------------------------
// The semantic walk

/// A semantic error naming the offending form.
pub open spec fn semantic(form: Seq<char>, message: Seq<char>) -> LintErrorView {
    LintErrorView::Semantic { form, message }
}

fn semantic_error(ctx: &str, message: String) -> (e: LintError)
    ensures
        e@ == semantic(ctx@, message@),
{
    LintError::Semantic { form: owned(ctx), message }
}

/// The key of a keyword symbol `:key`.
pub open spec fn keyword_of(e: SExprView) -> Option<Seq<char>> {
    match e {
        SExprView::Sym(s) => if s.len() > 0 && s[0] == ':' {
            Some(s.drop_first())
        } else {
            None
        },
        _ => None,
    }
}

/// Splits `items[i..]` into positional arguments and `:key value` pairs
/// (in source order). A keyword in last position has no value.
pub open spec fn split_from(items: Seq<SExprView>, i: int) -> Result<(Seq<SExprView>, Seq<(Seq<char>, SExprView)>), LintErrorView>
    decreases items.len() - i,
{
    if i < 0 || i >= items.len() {
        Ok((Seq::<SExprView>::empty(), Seq::<(Seq<char>, SExprView)>::empty()))
    } else {
        match keyword_of(items[i]) {
            Some(key) => if i + 1 >= items.len() {
                Err(LintErrorView::Syntax("keyword `:"@ + key + "` has no value"@))
            } else {
                match split_from(items, i + 2) {
                    Ok((pos, kws)) => Ok((pos, seq![(key, items[i + 1])] + kws)),
                    Err(e) => Err(e),
                }
            },
            None => match split_from(items, i + 1) {
                Ok((pos, kws)) => Ok((seq![items[i]] + pos, kws)),
                Err(e) => Err(e),
            },
        }
    }
}

/// The value of the last `:key` pair named `k` (a later pair overrides an
/// earlier one).
pub open spec fn kw_lookup(kws: Seq<(Seq<char>, SExprView)>, k: Seq<char>) -> Option<SExprView>
    decreases kws.len(),
{
    if kws.len() == 0 {
        None
    } else if kws.last().0 == k {
        Some(kws.last().1)
    } else {
        kw_lookup(kws.drop_last(), k)
    }
}

spec fn idx_view(items: Seq<SExpr>, ix: Seq<usize>) -> Seq<SExprView> {
    ix.map_values(|j: usize| items[j as int]@)
}

spec fn kw_view(items: Seq<SExpr>, kws: Seq<(String, usize)>) -> Seq<(Seq<char>, SExprView)> {
    kws.map_values(|p: (String, usize)| (p.0@, items[p.1 as int]@))
}

fn split_kwargs(items: &[SExpr], start: usize) -> (r: Result<(Vec<usize>, Vec<(String, usize)>), LintError>)
    requires
        start <= items@.len(),
    ensures
        match r {
            Ok((pos, kws)) => {
                &&& forall|k: int| 0 <= k < pos@.len() ==> #[trigger] pos@[k] < items@.len()
                &&& forall|k: int| 0 <= k < kws@.len() ==> #[trigger] kws@[k].1 < items@.len()
                &&& split_from(exprs_view(items@), start as int) == Ok::<(Seq<SExprView>, Seq<(Seq<char>, SExprView)>), LintErrorView>(
                    (idx_view(items@, pos@), kw_view(items@, kws@)),
                )
            },
            Err(e) => split_from(exprs_view(items@), start as int) == Err::<(Seq<SExprView>, Seq<(Seq<char>, SExprView)>), LintErrorView>(e@),
        },
{
    let ghost iv = exprs_view(items@);
    let mut pos: Vec<usize> = Vec::new();
    let mut kws: Vec<(String, usize)> = Vec::new();
    let mut i: usize = start;
    while i < items.len()
        invariant
            start <= i <= items@.len(),
            iv == exprs_view(items@),
            forall|k: int| 0 <= k < pos@.len() ==> #[trigger] pos@[k] < items@.len(),
            forall|k: int| 0 <= k < kws@.len() ==> #[trigger] kws@[k].1 < items@.len(),
            split_from(iv, start as int) == match split_from(iv, i as int) {
                Ok((p, k)) => Ok((idx_view(items@, pos@) + p, kw_view(items@, kws@) + k)),
                Err(e) => Err::<(Seq<SExprView>, Seq<(Seq<char>, SExprView)>), LintErrorView>(e),
            },
        decreases items.len() - i,
    {
        let ghost pv = idx_view(items@, pos@);
        let ghost kv = kw_view(items@, kws@);
        let mut key: Option<String> = None;
        if let SExpr::Sym(sym) = &items[i] {
            let cs = chars_of(sym.as_str());
            if cs.len() > 0 && cs[0] == ':' {
                let k = string_of(cs.as_slice(), 1, cs.len());
                proof {
                    assert(cs@.subrange(1, cs@.len() as int) == cs@.drop_first());
                }
                key = Some(k);
            }
        }
        proof {
            assert(iv[i as int] == items@[i as int]@);
        }
        match key {
            Some(k) => {
                if i + 1 >= items.len() {
                    let mut m = owned("keyword `:");
                    push_string(&mut m, &k);
                    push_str(&mut m, "` has no value");
                    return Err(LintError::Syntax(m));
                }
                let ghost kk = k@;
                kws.push((k, i + 1));
                proof {
                    assert(kw_view(items@, kws@) == kv.push((kk, iv[i + 1])));
                    assert forall|x: Seq<(Seq<char>, SExprView)>| kv + (seq![(kk, iv[i + 1])] + x) == kw_view(items@, kws@) + x by {}
                }
                i = i + 2;
            },
            None => {
                pos.push(i);
                proof {
                    assert(idx_view(items@, pos@) == pv.push(iv[i as int]));
                    assert forall|x: Seq<SExprView>| pv + (seq![iv[i as int]] + x) == idx_view(items@, pos@) + x by {}
                }
                i = i + 1;
            },
        }
    }
    proof {
        assert(idx_view(items@, pos@) + Seq::<SExprView>::empty() == idx_view(items@, pos@));
        assert(kw_view(items@, kws@) + Seq::<(Seq<char>, SExprView)>::empty() == kw_view(items@, kws@));
    }
    Ok((pos, kws))
}

fn kw_get<'a>(items: &'a [SExpr], kws: &[(String, usize)], key: &str) -> (r: Option<&'a SExpr>)
    requires
        forall|k: int| 0 <= k < kws@.len() ==> #[trigger] kws@[k].1 < items@.len(),
    ensures
        match r {
            Some(e) => kw_lookup(kw_view(items@, kws@), key@) == Some(e@),
            None => kw_lookup(kw_view(items@, kws@), key@) is None,
        },
{
    let ghost kv = kw_view(items@, kws@);
    let mut i: usize = kws.len();
    assert(kv.take(kv.len() as int) == kv);
    while i > 0
        invariant
            0 <= i <= kws@.len(),
            kv == kw_view(items@, kws@),
            forall|k: int| 0 <= k < kws@.len() ==> #[trigger] kws@[k].1 < items@.len(),
            kw_lookup(kv, key@) == kw_lookup(kv.take(i as int), key@),
        decreases i,
    {
        proof {
            assert(kv.take(i as int).drop_last() == kv.take(i - 1));
            assert(kv.take(i as int).last() == kv[i - 1]);
        }
        if str_eq(kws[i - 1].0.as_str(), key) {
            return Some(&items[kws[i - 1].1]);
        }
        i = i - 1;
    }
    None
}

/// `e` as a string literal, or a semantic error naming `ctx`.
pub open spec fn spec_expect_str(e: SExprView, ctx: Seq<char>) -> Result<Seq<char>, LintErrorView> {
    match e {
        SExprView::Str(s) => Ok(s),
        _ => Err(semantic(ctx, "expected a string, got `"@ + render(e) + "`"@)),
    }
}

/// `e` as a bare symbol, or a semantic error naming `ctx`.
pub open spec fn spec_expect_sym(e: SExprView, ctx: Seq<char>) -> Result<Seq<char>, LintErrorView> {
    match e {
        SExprView::Sym(s) => Ok(s),
        _ => Err(semantic(ctx, "expected a bare symbol, got `"@ + render(e) + "`"@)),
    }
}

/// `e` as a list, or a semantic error naming `ctx`.
pub open spec fn spec_expect_list(e: SExprView, ctx: Seq<char>) -> Result<Seq<SExprView>, LintErrorView> {
    match e {
        SExprView::List(items) => Ok(items),
        _ => Err(semantic(ctx, "expected a list `(...)`, got `"@ + render(e) + "`"@)),
    }
}

fn quoted_message(prefix: &str, e: &SExpr, suffix: &str) -> (m: String)
    ensures
        m@ == prefix@ + render(e@) + suffix@,
{
    let mut m = owned(prefix);
    e.push_render(&mut m);
    push_str(&mut m, suffix);
    m
}

fn expect_str(e: &SExpr, ctx: &str) -> (r: Result<String, LintError>)
    ensures
        match r {
            Ok(s) => spec_expect_str(e@, ctx@) == Ok::<Seq<char>, LintErrorView>(s@),
            Err(x) => spec_expect_str(e@, ctx@) == Err::<Seq<char>, LintErrorView>(x@),
        },
{
    match e {
        SExpr::Str(s) => Ok(s.clone()),
        _ => Err(semantic_error(ctx, quoted_message("expected a string, got `", e, "`"))),
    }
}

fn expect_sym(e: &SExpr, ctx: &str) -> (r: Result<String, LintError>)
    ensures
        match r {
            Ok(s) => spec_expect_sym(e@, ctx@) == Ok::<Seq<char>, LintErrorView>(s@),
            Err(x) => spec_expect_sym(e@, ctx@) == Err::<Seq<char>, LintErrorView>(x@),
        },
{
    match e {
        SExpr::Sym(s) => Ok(s.clone()),
        _ => Err(semantic_error(ctx, quoted_message("expected a bare symbol, got `", e, "`"))),
    }
}

fn expect_list<'a>(e: &'a SExpr, ctx: &str) -> (r: Result<&'a [SExpr], LintError>)
    ensures
        match r {
            Ok(items) => spec_expect_list(e@, ctx@) == Ok::<Seq<SExprView>, LintErrorView>(exprs_view(items@)),
            Err(x) => spec_expect_list(e@, ctx@) == Err::<Seq<SExprView>, LintErrorView>(x@),
        },
{
    match e {
        SExpr::List(items) => {
            proof {
                lemma_list_view(*items);
            }
            Ok(items.as_slice())
        },
        _ => Err(semantic_error(ctx, quoted_message("expected a list `(...)`, got `", e, "`"))),
    }
}

/// `true` or `false` as a bare symbol.
pub open spec fn spec_parse_bool(e: SExprView, ctx: Seq<char>) -> Result<bool, LintErrorView> {
    match spec_expect_sym(e, ctx) {
        Ok(s) => if s == "true"@ {
            Ok(true)
        } else if s == "false"@ {
            Ok(false)
        } else {
            Err(semantic(ctx, "expected `true` or `false`, got `"@ + s + "`"@))
        },
        Err(x) => Err(x),
    }
}

fn parse_bool(e: &SExpr, ctx: &str) -> (r: Result<bool, LintError>)
    ensures
        match r {
            Ok(b) => spec_parse_bool(e@, ctx@) == Ok::<bool, LintErrorView>(b),
            Err(x) => spec_parse_bool(e@, ctx@) == Err::<bool, LintErrorView>(x@),
        },
{
    let s = expect_sym(e, ctx)?;
    if str_eq(s.as_str(), "true") {
        Ok(true)
    } else if str_eq(s.as_str(), "false") {
        Ok(false)
    } else {
        let mut m = owned("expected `true` or `false`, got `");
        push_string(&mut m, &s);
        push_str(&mut m, "`");
        Err(semantic_error(ctx, m))
    }
}

/// A permission keyword as a bare symbol.
pub open spec fn spec_parse_permission(e: SExprView, ctx: Seq<char>) -> Result<Permission, LintErrorView> {
    match spec_expect_sym(e, ctx) {
        Ok(s) => match permission_keyword(s) {
            Some(p) => Ok(p),
            None => Err(semantic(
                ctx,
                "unknown :min-permission `"@ + s + "` — expected one of none|read|triage|write|maintain|admin"@,
            )),
        },
        Err(x) => Err(x),
    }
}

fn parse_permission(e: &SExpr, ctx: &str) -> (r: Result<Permission, LintError>)
    ensures
        match r {
            Ok(p) => spec_parse_permission(e@, ctx@) == Ok::<Permission, LintErrorView>(p),
            Err(x) => spec_parse_permission(e@, ctx@) == Err::<Permission, LintErrorView>(x@),
        },
{
    let s = expect_sym(e, ctx)?;
    match parse_permission_keyword(s.as_str()) {
        Some(p) => Ok(p),
        None => {
            let mut m = owned("unknown :min-permission `");
            push_string(&mut m, &s);
            push_str(&mut m, "` — expected one of none|read|triage|write|maintain|admin");
            Err(semantic_error(ctx, m))
        },
    }
}

/// The string literals of `items[i..]`, or the first item that is not one.
pub open spec fn strings_from(items: Seq<SExprView>, i: int, ctx: Seq<char>) -> Result<Seq<Seq<char>>, LintErrorView>
    decreases items.len() - i,
{
    if i < 0 || i >= items.len() {
        Ok(Seq::<Seq<char>>::empty())
    } else {
        match spec_expect_str(items[i], ctx) {
            Ok(s) => match strings_from(items, i + 1, ctx) {
                Ok(rest) => Ok(seq![s] + rest),
                Err(x) => Err(x),
            },
            Err(x) => Err(x),
        }
    }
}

/// A list of string literals.
pub open spec fn spec_parse_string_list(e: SExprView, ctx: Seq<char>) -> Result<Seq<Seq<char>>, LintErrorView> {
    match spec_expect_list(e, ctx) {
        Ok(items) => strings_from(items, 0, ctx),
        Err(x) => Err(x),
    }
}

fn parse_string_list(e: &SExpr, ctx: &str) -> (r: Result<Vec<String>, LintError>)
    ensures
        match r {
            Ok(v) => spec_parse_string_list(e@, ctx@) == Ok::<Seq<Seq<char>>, LintErrorView>(strings_view(v@)),
            Err(x) => spec_parse_string_list(e@, ctx@) == Err::<Seq<Seq<char>>, LintErrorView>(x@),
        },
{
    let items = expect_list(e, ctx)?;
    let ghost iv = exprs_view(items@);
    let mut out: Vec<String> = Vec::new();
    let mut i: usize = 0;
    while i < items.len()
        invariant
            0 <= i <= items@.len(),
            iv == exprs_view(items@),
            spec_parse_string_list(e@, ctx@) == strings_from(iv, 0, ctx@),
            strings_from(iv, 0, ctx@) == match strings_from(iv, i as int, ctx@) {
                Ok(rest) => Ok(strings_view(out@) + rest),
                Err(x) => Err::<Seq<Seq<char>>, LintErrorView>(x),
            },
        decreases items.len() - i,
    {
        proof {
            assert(iv[i as int] == items@[i as int]@);
        }
        let s = expect_str(&items[i], ctx)?;
        let ghost sv = s@;
        let ghost before = strings_view(out@);
        out.push(s);
        proof {
            assert(strings_view(out@) == before.push(sv));
            assert forall|x: Seq<Seq<char>>| before + (seq![sv] + x) == strings_view(out@) + x by {}
        }
        i = i + 1;
    }
    proof {
        assert(strings_view(out@) + Seq::<Seq<char>>::empty() == strings_view(out@));
    }
    Ok(out)
}

/// One `(key "value")` entry of an `:inputs` list.
pub open spec fn spec_input_entry(pair: SExprView, ctx: Seq<char>) -> Result<(Seq<char>, Seq<char>), LintErrorView> {
    match spec_expect_list(pair, ctx) {
        Ok(pi) => if pi.len() != 2 {
            Err(semantic(ctx, "each :inputs entry must be `(key \"value\")`, got `"@ + render(pair) + "`"@))
        } else {
            match spec_expect_sym(pi[0], ctx) {
                Ok(k) => match spec_expect_str(pi[1], ctx) {
                    Ok(v) => Ok((k, v)),
                    Err(x) => Err(x),
                },
                Err(x) => Err(x),
            }
        },
        Err(x) => Err(x),
    }
}

/// The entries of `items[i..]` inserted, in order, into `acc` (a later
/// entry for the same key overrides an earlier one).
pub open spec fn inputs_from(items: Seq<SExprView>, i: int, ctx: Seq<char>, acc: Map<Seq<char>, Seq<char>>) -> Result<Map<Seq<char>, Seq<char>>, LintErrorView>
    decreases items.len() - i,
{
    if i < 0 || i >= items.len() {
        Ok(acc)
    } else {
        match spec_input_entry(items[i], ctx) {
            Ok((k, v)) => inputs_from(items, i + 1, ctx, acc.insert(k, v)),
            Err(x) => Err(x),
        }
    }
}

/// An `:inputs` list `((key "value") ...)`.
pub open spec fn spec_parse_inputs(e: SExprView, ctx: Seq<char>) -> Result<Map<Seq<char>, Seq<char>>, LintErrorView> {
    match spec_expect_list(e, ctx) {
        Ok(items) => inputs_from(items, 0, ctx, Map::empty()),
        Err(x) => Err(x),
    }
}

/// The `:inputs` entries `(keys[i] "values[i]")`, in order.
pub open spec fn input_entries(keys: Seq<Seq<char>>, values: Seq<Seq<char>>) -> Seq<SExprView> {
    Seq::new(keys.len(), |i: int| SExprView::List(seq![SExprView::Sym(keys[i]), SExprView::Str(values[i])]))
}

proof fn lemma_inputs_kept(keys: Seq<Seq<char>>, values: Seq<Seq<char>>, i: int, ctx: Seq<char>, acc: Map<Seq<char>, Seq<char>>)
    requires
        keys.len() == values.len(),
        0 <= i <= keys.len(),
        forall|a: int, b: int| 0 <= a < b < keys.len() ==> keys[a] != keys[b],
    ensures
        inputs_from(input_entries(keys, values), i, ctx, acc) matches Ok(m) && {
            &&& forall|k: Seq<char>| #[trigger] m.contains_key(k) <==> (acc.contains_key(k) || exists|j: int|
                i <= j < keys.len() && keys[j] == k)
            &&& forall|j: int| i <= j < keys.len() ==> m[#[trigger] keys[j]] == values[j]
            &&& forall|k: Seq<char>| #[trigger] acc.contains_key(k) && (forall|j: int| i <= j < keys.len() ==> keys[j] != k)
                ==> m[k] == acc[k]
        },
    decreases keys.len() - i,
{
    let items = input_entries(keys, values);
    if i < keys.len() {
        let pair = items[i];
        let pi = seq![SExprView::Sym(keys[i]), SExprView::Str(values[i])];
        assert(pair == SExprView::List(pi));
        assert(spec_input_entry(pair, ctx) == Ok::<(Seq<char>, Seq<char>), LintErrorView>((keys[i], values[i])));
        let next = acc.insert(keys[i], values[i]);
        lemma_inputs_kept(keys, values, i + 1, ctx, next);
        let m = inputs_from(items, i + 1, ctx, next)->Ok_0;
        assert(inputs_from(items, i, ctx, acc) == inputs_from(items, i + 1, ctx, next));
        assert forall|k: Seq<char>| #[trigger] m.contains_key(k) <==> (acc.contains_key(k) || exists|j: int|
            i <= j < keys.len() && keys[j] == k) by {
            if m.contains_key(k) && !acc.contains_key(k) && k == keys[i] {
                assert(i <= i < keys.len() && keys[i] == k);
            }
            if exists|j: int| i <= j < keys.len() && keys[j] == k {
                let j = choose|j: int| i <= j < keys.len() && keys[j] == k;
                if j == i {
                    assert(next.contains_key(k));
                } else {
                    assert(i + 1 <= j < keys.len() && keys[j] == k);
                }
            }
        }
        assert(forall|j: int| i + 1 <= j < keys.len() ==> keys[j] != keys[i]);
        assert(next.contains_key(keys[i]));
        assert(m[keys[i]] == values[i]);
        assert forall|j: int| i <= j < keys.len() implies m[#[trigger] keys[j]] == values[j] by {}
        assert forall|k: Seq<char>| #[trigger] acc.contains_key(k) && (forall|j: int| i <= j < keys.len() ==> keys[j] != k)
            implies m[k] == acc[k] by {
            assert(keys[i] != k);
            assert(next[k] == acc[k]);
            assert(next.contains_key(k));
            assert(forall|j: int| i + 1 <= j < keys.len() ==> keys[j] != k);
        }
    } else {
        assert(inputs_from(items, i, ctx, acc) == Ok::<Map<Seq<char>, Seq<char>>, LintErrorView>(acc));
    }
}

/// Every `:inputs` entry is kept: an `:inputs` list of entries
/// `(key "value")` with distinct keys reads as the map holding exactly those
/// keys, each with its own value.
pub proof fn law_every_input_entry_is_kept(keys: Seq<Seq<char>>, values: Seq<Seq<char>>, ctx: Seq<char>)
    requires
        keys.len() == values.len(),
        forall|a: int, b: int| 0 <= a < b < keys.len() ==> keys[a] != keys[b],
    ensures
        spec_parse_inputs(SExprView::List(input_entries(keys, values)), ctx) matches Ok(m) && {
            &&& m.dom() == keys.to_set()
            &&& forall|j: int| 0 <= j < keys.len() ==> m[#[trigger] keys[j]] == values[j]
        },
{
    lemma_inputs_kept(keys, values, 0, ctx, Map::empty());
    let m = spec_parse_inputs(SExprView::List(input_entries(keys, values)), ctx)->Ok_0;
    assert forall|k: Seq<char>| m.dom().contains(k) <==> keys.to_set().contains(k) by {
        if keys.to_set().contains(k) {
            let j = choose|j: int| 0 <= j < keys.len() && keys[j] == k;
            assert(m.contains_key(keys[j]));
        }
    }
    assert(m.dom() =~= keys.to_set());
}

fn parse_inputs(e: &SExpr, ctx: &str) -> (r: Result<InputMap, LintError>)
    ensures
        match r {
            Ok(m) => spec_parse_inputs(e@, ctx@) == Ok::<Map<Seq<char>, Seq<char>>, LintErrorView>(m@),
            Err(x) => spec_parse_inputs(e@, ctx@) == Err::<Map<Seq<char>, Seq<char>>, LintErrorView>(x@),
        },
{
    let items = expect_list(e, ctx)?;
    let ghost iv = exprs_view(items@);
    let mut map = InputMap::new();
    let mut i: usize = 0;
    while i < items.len()
        invariant
            0 <= i <= items@.len(),
            iv == exprs_view(items@),
            spec_parse_inputs(e@, ctx@) == inputs_from(iv, i as int, ctx@, map@),
        decreases items.len() - i,
    {
        let pair = &items[i];
        proof {
            assert(iv[i as int] == pair@);
        }
        let pair_items = expect_list(pair, ctx)?;
        if pair_items.len() != 2 {
            let m = quoted_message("each :inputs entry must be `(key \"value\")`, got `", pair, "`");
            return Err(semantic_error(ctx, m));
        }
        proof {
            assert(exprs_view(pair_items@)[0] == pair_items@[0]@);
            assert(exprs_view(pair_items@)[1] == pair_items@[1]@);
        }
        let key = expect_sym(&pair_items[0], ctx)?;
        let val = expect_str(&pair_items[1], ctx)?;
        map.insert(key, val);
        i = i + 1;
    }
    Ok(map)
}


/// The string literal at `pos[i]`, or the semantic error `missing` when the
/// form has no such argument.
pub open spec fn positional_str(pos: Seq<SExprView>, i: int, ctx: Seq<char>, missing: Seq<char>) -> Result<Seq<char>, LintErrorView> {
    if 0 <= i < pos.len() {
        spec_expect_str(pos[i], ctx)
    } else {
        Err(semantic(ctx, missing))
    }
}

/// The string literal under `:key`, if the form has one.
pub open spec fn optional_str(kws: Seq<(Seq<char>, SExprView)>, key: Seq<char>, ctx: Seq<char>) -> Result<Option<Seq<char>>, LintErrorView> {
    match kw_lookup(kws, key) {
        None => Ok(None),
        Some(v) => match spec_expect_str(v, ctx) {
            Ok(s) => Ok(Some(s)),
            Err(x) => Err(x),
        },
    }
}

/// The `:inputs` of a `workflow-dispatch` form (empty when absent).
pub open spec fn optional_inputs(kws: Seq<(Seq<char>, SExprView)>, ctx: Seq<char>) -> Result<Map<Seq<char>, Seq<char>>, LintErrorView> {
    match kw_lookup(kws, "inputs"@) {
        None => Ok(Map::empty()),
        Some(v) => spec_parse_inputs(v, ctx),
    }
}

/// A `:target` form: `(label "<name>")`,
/// `(workflow-dispatch "<file>" :ref "<ref>" :inputs (...))` or
/// `(repository-dispatch "<event-type>" :repo "<owner/repo>")`.
pub open spec fn spec_parse_target(e: SExprView, ctx: Seq<char>) -> Result<TargetView, LintErrorView> {
    match spec_expect_list(e, ctx) {
        Err(x) => Err(x),
        Ok(items) => match split_from(items, 0) {
            Err(x) => Err(x),
            Ok((pos, kws)) => if pos.len() == 0 {
                Err(semantic(ctx, "empty :target form"@))
            } else {
                match spec_expect_sym(pos[0], ctx) {
                    Err(x) => Err(x),
                    Ok(head) => if head == "label"@ {
                        match positional_str(pos, 1, ctx, "`(label ...)` requires a label-name string"@) {
                            Ok(name) => Ok(TargetView::Label { name }),
                            Err(x) => Err(x),
                        }
                    } else if head == "workflow-dispatch"@ {
                        match positional_str(pos, 1, ctx, "`(workflow-dispatch ...)` requires a workflow-file string"@) {
                            Err(x) => Err(x),
                            Ok(workflow) => match optional_str(kws, "ref"@, ctx) {
                                Err(x) => Err(x),
                                Ok(git_ref) => match optional_inputs(kws, ctx) {
                                    Err(x) => Err(x),
                                    Ok(inputs) => Ok(TargetView::WorkflowDispatch { workflow, git_ref, inputs }),
                                },
                            },
                        }
                    } else if head == "repository-dispatch"@ {
                        match positional_str(pos, 1, ctx, "`(repository-dispatch ...)` requires an event-type string"@) {
                            Err(x) => Err(x),
                            Ok(event_type) => match optional_str(kws, "repo"@, ctx) {
                                Err(x) => Err(x),
                                Ok(repo) => Ok(TargetView::RepositoryDispatch { event_type, repo }),
                            },
                        }
                    } else {
                        Err(semantic(
                            ctx,
                            "unknown :target kind `"@ + head + "` — expected one of label|workflow-dispatch|repository-dispatch"@,
                        ))
                    },
                }
            },
        },
    }
}

fn positional_string(items: &[SExpr], pos: &Vec<usize>, i: usize, ctx: &str, missing: &str) -> (r: Result<String, LintError>)
    requires
        forall|k: int| 0 <= k < pos@.len() ==> #[trigger] pos@[k] < items@.len(),
    ensures
        match r {
            Ok(s) => positional_str(idx_view(items@, pos@), i as int, ctx@, missing@) == Ok::<Seq<char>, LintErrorView>(s@),
            Err(x) => positional_str(idx_view(items@, pos@), i as int, ctx@, missing@) == Err::<Seq<char>, LintErrorView>(x@),
        },
{
    if i < pos.len() {
        expect_str(&items[pos[i]], ctx)
    } else {
        Err(semantic_error(ctx, owned(missing)))
    }
}

fn optional_string(items: &[SExpr], kws: &Vec<(String, usize)>, key: &str, ctx: &str) -> (r: Result<Option<String>, LintError>)
    requires
        forall|k: int| 0 <= k < kws@.len() ==> #[trigger] kws@[k].1 < items@.len(),
    ensures
        match r {
            Ok(o) => optional_str(kw_view(items@, kws@), key@, ctx@) == Ok::<Option<Seq<char>>, LintErrorView>(opt_view(o)),
            Err(x) => optional_str(kw_view(items@, kws@), key@, ctx@) == Err::<Option<Seq<char>>, LintErrorView>(x@),
        },
{
    match kw_get(items, kws.as_slice(), key) {
        None => Ok(None),
        Some(v) => {
            let s = expect_str(v, ctx)?;
            Ok(Some(s))
        },
    }
}

fn parse_target(e: &SExpr, ctx: &str) -> (r: Result<DispatchTarget, LintError>)
    ensures
        match r {
            Ok(t) => spec_parse_target(e@, ctx@) == Ok::<TargetView, LintErrorView>(t@),
            Err(x) => spec_parse_target(e@, ctx@) == Err::<TargetView, LintErrorView>(x@),
        },
{
    let items = expect_list(e, ctx)?;
    let (pos, kws) = split_kwargs(items, 0)?;
    let ghost pv = idx_view(items@, pos@);
    let ghost kv = kw_view(items@, kws@);
    if pos.len() == 0 {
        return Err(semantic_error(ctx, owned("empty :target form")));
    }
    proof {
        assert(pv[0] == items@[pos@[0] as int]@);
    }
    let head = expect_sym(&items[pos[0]], ctx)?;
    if str_eq(head.as_str(), "label") {
        let name = positional_string(items, &pos, 1, ctx, "`(label ...)` requires a label-name string")?;
        Ok(DispatchTarget::Label { name })
    } else if str_eq(head.as_str(), "workflow-dispatch") {
        let workflow = positional_string(items, &pos, 1, ctx, "`(workflow-dispatch ...)` requires a workflow-file string")?;
        let git_ref = optional_string(items, &kws, "ref", ctx)?;
        let inputs = match kw_get(items, kws.as_slice(), "inputs") {
            None => InputMap::new(),
            Some(v) => parse_inputs(v, ctx)?,
        };
        Ok(DispatchTarget::WorkflowDispatch { workflow, git_ref, inputs })
    } else if str_eq(head.as_str(), "repository-dispatch") {
        let event_type = positional_string(items, &pos, 1, ctx, "`(repository-dispatch ...)` requires an event-type string")?;
        let repo = optional_string(items, &kws, "repo", ctx)?;
        Ok(DispatchTarget::RepositoryDispatch { event_type, repo })
    } else {
        let mut m = owned("unknown :target kind `");
        push_string(&mut m, &head);
        push_str(&mut m, "` — expected one of label|workflow-dispatch|repository-dispatch");
        Err(semantic_error(ctx, m))
    }
}

/// The form name each command's errors are reported under.
pub open spec fn command_context(name: Seq<char>) -> Seq<char> {
    "defcommentcommand \""@ + name + "\""@
}

/// The `:min-permission` of a command (`write` when absent).
pub open spec fn optional_permission(kws: Seq<(Seq<char>, SExprView)>, ctx: Seq<char>) -> Result<Permission, LintErrorView> {
    match kw_lookup(kws, "min-permission"@) {
        None => Ok(spec_default_min_permission()),
        Some(v) => spec_parse_permission(v, ctx),
    }
}

/// The `:trust-pr-author` of a command (`true` when absent).
pub open spec fn optional_trust(kws: Seq<(Seq<char>, SExprView)>, ctx: Seq<char>) -> Result<bool, LintErrorView> {
    match kw_lookup(kws, "trust-pr-author"@) {
        None => Ok(true),
        Some(v) => spec_parse_bool(v, ctx),
    }
}

/// The `:allowlist` of a command (empty when absent).
pub open spec fn optional_allowlist(kws: Seq<(Seq<char>, SExprView)>, ctx: Seq<char>) -> Result<Seq<Seq<char>>, LintErrorView> {
    match kw_lookup(kws, "allowlist"@) {
        None => Ok(Seq::<Seq<char>>::empty()),
        Some(v) => spec_parse_string_list(v, ctx),
    }
}

/// The `:target` of a command, which is required.
pub open spec fn required_target(kws: Seq<(Seq<char>, SExprView)>, ctx: Seq<char>) -> Result<TargetView, LintErrorView> {
    match kw_lookup(kws, "target"@) {
        None => Err(semantic(ctx, "missing required `:target`"@)),
        Some(v) => spec_parse_target(v, ctx),
    }
}

/// The `:trigger` of a command, which is required.
pub open spec fn required_trigger(kws: Seq<(Seq<char>, SExprView)>, ctx: Seq<char>) -> Result<Seq<char>, LintErrorView> {
    match kw_lookup(kws, "trigger"@) {
        None => Err(semantic(ctx, "missing required `:trigger`"@)),
        Some(v) => spec_expect_str(v, ctx),
    }
}

/// The keys a `(defcommentcommand ...)` form accepts.
pub open spec fn is_command_key(k: Seq<char>) -> bool {
    k == "trigger"@ || k == "min-permission"@ || k == "trust-pr-author"@ || k == "allowlist"@ || k == "target"@
}

/// The first key of `kws[i..]` that a command form does not accept.
pub open spec fn unknown_key(kws: Seq<(Seq<char>, SExprView)>, i: int) -> Option<Seq<char>>
    decreases kws.len() - i,
{
    if i < 0 || i >= kws.len() {
        None
    } else if !is_command_key(kws[i].0) {
        Some(kws[i].0)
    } else {
        unknown_key(kws, i + 1)
    }
}

/// The message for a key a command form does not accept.
pub open spec fn unknown_key_message(k: Seq<char>) -> Seq<char> {
    "unknown keyword `:"@ + k + "` — expected one of :trigger|:min-permission|:trust-pr-author|:allowlist|:target"@
}

fn command_key(k: &str) -> (b: bool)
    ensures
        b == is_command_key(k@),
{
    str_eq(k, "trigger") || str_eq(k, "min-permission") || str_eq(k, "trust-pr-author") || str_eq(k, "allowlist")
        || str_eq(k, "target")
}

fn first_unknown_key<'a>(items: &[SExpr], kws: &'a [(String, usize)]) -> (r: Option<&'a String>)
    requires
        forall|k: int| 0 <= k < kws@.len() ==> #[trigger] kws@[k].1 < items@.len(),
    ensures
        match r {
            Some(k) => unknown_key(kw_view(items@, kws@), 0) == Some(k@),
            None => unknown_key(kw_view(items@, kws@), 0) is None,
        },
{
    let ghost kv = kw_view(items@, kws@);
    let mut i: usize = 0;
    while i < kws.len()
        invariant
            0 <= i <= kws@.len(),
            kv == kw_view(items@, kws@),
            unknown_key(kv, 0) == unknown_key(kv, i as int),
        decreases kws.len() - i,
    {
        assert(kv[i as int].0 == kws@[i as int].0@);
        if !command_key(kws[i].0.as_str()) {
            return Some(&kws[i].0);
        }
        i = i + 1;
    }
    None
}

/// A `(defcommentcommand "<name>" :key value ...)` form, whose arguments
/// start at `items[1]`. A key other than the five a command has is an
/// error naming the form. Fields are read in order name, `:trigger`,
/// `:min-permission`, `:trust-pr-author`, `:allowlist`, `:target`; the
/// first failure is reported.
pub open spec fn spec_parse_command(items: Seq<SExprView>) -> Result<CommandView, LintErrorView> {
    match split_from(items, 1) {
        Err(x) => Err(x),
        Ok((pos, kws)) => match positional_str(pos, 0, "defcommentcommand"@, "missing the command-name string"@) {
            Err(x) => Err(x),
            Ok(name) => {
                let ctx = command_context(name);
                match unknown_key(kws, 0) {
                    Some(k) => Err(semantic(ctx, unknown_key_message(k))),
                    None => match required_trigger(kws, ctx) {
                    Err(x) => Err(x),
                    Ok(trigger) => match optional_permission(kws, ctx) {
                        Err(x) => Err(x),
                        Ok(min_permission) => match optional_trust(kws, ctx) {
                            Err(x) => Err(x),
                            Ok(trust_pr_author) => match optional_allowlist(kws, ctx) {
                                Err(x) => Err(x),
                                Ok(allowlist) => match required_target(kws, ctx) {
                                    Err(x) => Err(x),
                                    Ok(target) => Ok(CommandView {
                                        name,
                                        trigger,
                                        min_permission,
                                        trust_pr_author,
                                        allowlist,
                                        target,
                                    }),
                                },
                            },
                        },
                    },
                },
                }
            },
        },
    }
}

fn parse_defcommentcommand(items: &[SExpr]) -> (r: Result<CommentCommandSpec, LintError>)
    requires
        items@.len() >= 1,
    ensures
        match r {
            Ok(c) => spec_parse_command(exprs_view(items@)) == Ok::<CommandView, LintErrorView>(c@),
            Err(x) => spec_parse_command(exprs_view(items@)) == Err::<CommandView, LintErrorView>(x@),
        },
{
    let (pos, kws) = split_kwargs(items, 1)?;
    let name = positional_string(items, &pos, 0, "defcommentcommand", "missing the command-name string")?;
    let mut ctx = owned("defcommentcommand \"");
    push_string(&mut ctx, &name);
    push_str(&mut ctx, "\"");
    let ctx_str = ctx.as_str();
    if let Some(k) = first_unknown_key(items, kws.as_slice()) {
        let mut m = owned("unknown keyword `:");
        push_string(&mut m, k);
        push_str(&mut m, "` — expected one of :trigger|:min-permission|:trust-pr-author|:allowlist|:target");
        return Err(semantic_error(ctx_str, m));
    }
    let trigger = match kw_get(items, kws.as_slice(), "trigger") {
        None => return Err(semantic_error(ctx_str, owned("missing required `:trigger`"))),
        Some(v) => expect_str(v, ctx_str)?,
    };
    let min_permission = match kw_get(items, kws.as_slice(), "min-permission") {
        None => default_min_permission(),
        Some(v) => parse_permission(v, ctx_str)?,
    };
    let trust_pr_author = match kw_get(items, kws.as_slice(), "trust-pr-author") {
        None => default_true(),
        Some(v) => parse_bool(v, ctx_str)?,
    };
    let allowlist = match kw_get(items, kws.as_slice(), "allowlist") {
        None => Vec::new(),
        Some(v) => parse_string_list(v, ctx_str)?,
    };
    let target = match kw_get(items, kws.as_slice(), "target") {
        None => return Err(semantic_error(ctx_str, owned("missing required `:target`"))),
        Some(v) => parse_target(v, ctx_str)?,
    };
    let c = CommentCommandSpec { name, trigger, min_permission, trust_pr_author, allowlist, target };
    proof {
        if kw_lookup(kw_view(items@, kws@), "allowlist"@) is None {
            assert(strings_view(c.allowlist@) =~= Seq::<Seq<char>>::empty());
        }
    }
    Ok(c)
}

/// The commands of the top-level forms `forms[i..]`. Each form must be a
/// list headed by the symbol `defcommentcommand`.
pub open spec fn commands_from(forms: Seq<SExprView>, i: int) -> Result<Seq<CommandView>, LintErrorView>
    decreases forms.len() - i,
{
    if i < 0 || i >= forms.len() {
        Ok(Seq::<CommandView>::empty())
    } else {
        match forms[i] {
            SExprView::List(items) => if items.len() == 0 || !(items[0] is Sym) {
                Err(LintErrorView::Syntax("top-level form must start with a symbol"@))
            } else if items[0]->Sym_0 != "defcommentcommand"@ {
                Err(LintErrorView::Syntax(
                    "unknown top-level form `"@ + items[0]->Sym_0 + "` — only `defcommentcommand` is recognized"@,
                ))
            } else {
                match spec_parse_command(items) {
                    Ok(c) => match commands_from(forms, i + 1) {
                        Ok(rest) => Ok(seq![c] + rest),
                        Err(x) => Err(x),
                    },
                    Err(x) => Err(x),
                }
            },
            _ => Err(LintErrorView::Syntax(
                "top-level form must be `(defcommentcommand ...)`, got `"@ + render(forms[i]) + "`"@,
            )),
        }
    }
}

/// What a catalog source denotes: its commands in source order, or the
/// first error. All lexical and parenthesis errors are found before any
/// semantic one.
pub open spec fn parse_spec(src: Seq<char>) -> Result<Seq<CommandView>, LintErrorView> {
    match lex(src) {
        Err(m) => Err(LintErrorView::Syntax(m)),
        Ok(ts) => match parse_forms(ts, 0) {
            Err(m) => Err(LintErrorView::Syntax(m)),
            Ok(forms) => commands_from(forms, 0),
        },
    }
}

/// Parse a full `.lisp` catalog source into a [`CatalogSpec`]. Every
/// top-level form must be `(defcommentcommand ...)`; anything else is a
/// [`LintError`] naming the offending form, never a silent skip. Total:
/// every input yields a catalog or an error.
pub fn parse(src: &str) -> (r: Result<CatalogSpec, LintError>)
    ensures
        match r {
            Ok(c) => parse_spec(src@) == Ok::<Seq<CommandView>, LintErrorView>(c@),
            Err(e) => parse_spec(src@) == Err::<Seq<CommandView>, LintErrorView>(e@),
        },
{
    let tokens = Tokenizer::new(src).tokenize()?;
    let forms = parse_all(tokens.as_slice())?;
    let ghost fv = exprs_view(forms@);
    let mut commands: Vec<CommentCommandSpec> = Vec::with_capacity(forms.len());
    let mut i: usize = 0;
    while i < forms.len()
        invariant
            0 <= i <= forms@.len(),
            fv == exprs_view(forms@),
            parse_spec(src@) == commands_from(fv, 0),
            commands_from(fv, 0) == match commands_from(fv, i as int) {
                Ok(rest) => Ok(commands@.map_values(|c: CommentCommandSpec| c@) + rest),
                Err(x) => Err::<Seq<CommandView>, LintErrorView>(x),
            },
        decreases forms.len() - i,
    {
        let form = &forms[i];
        proof {
            assert(fv[i as int] == form@);
        }
        let items = match form {
            SExpr::List(items) => items,
            _ => {
                let m = quoted_message("top-level form must be `(defcommentcommand ...)`, got `", form, "`");
                return Err(LintError::Syntax(m));
            },
        };
        proof {
            lemma_list_view(*items);
        }
        if items.len() == 0 {
            return Err(LintError::Syntax(owned("top-level form must start with a symbol")));
        }
        let head = match &items[0] {
            SExpr::Sym(h) => h,
            _ => {
                return Err(LintError::Syntax(owned("top-level form must start with a symbol")));
            },
        };
        proof {
            assert(exprs_view(items@)[0] == items@[0]@);
        }
        if !str_eq(head.as_str(), "defcommentcommand") {
            let mut m = owned("unknown top-level form `");
            push_string(&mut m, head);
            push_str(&mut m, "` — only `defcommentcommand` is recognized");
            return Err(LintError::Syntax(m));
        }
        let c = parse_defcommentcommand(items.as_slice())?;
        let ghost cv = c@;
        let ghost before = commands@.map_values(|c: CommentCommandSpec| c@);
        commands.push(c);
        proof {
            assert(commands@.map_values(|c: CommentCommandSpec| c@) == before.push(cv));
            assert forall|x: Seq<CommandView>| before + (seq![cv] + x) == commands@.map_values(|c: CommentCommandSpec| c@) + x by {}
        }
        i = i + 1;
    }
    let catalog = CatalogSpec { commands };
    proof {
        assert(catalog@ == catalog.commands@.map_values(|c: CommentCommandSpec| c@));
        assert(catalog@ + Seq::<CommandView>::empty() == catalog@);
    }
    Ok(catalog)
}

} // verus!
