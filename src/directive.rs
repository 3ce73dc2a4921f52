use vstd::prelude::*;
use vstd::string::*;
use crate::error::{fail, make_error, ErrorKind, MacroError};
use crate::macros::{Macro, MacroDef};
use crate::text::strings_view;
use crate::token::{lemma_run_end, lemma_ws_end, run_end, texts, ws_end, Token, TokenWithText};

verus! {

/// The parameter names of a function macro, read from `i` (just after its `(`)
/// up to the matching `)`; commas and whitespace separate names.
pub open spec fn param_list(ts: Seq<TokenWithText>, i: int, acc: Seq<Seq<char>>) -> Result<
    (int, Seq<Seq<char>>),
    MacroError,
>
    decreases ts.len() - i,
{
    if !(0 <= i < ts.len()) {
        Err(fail(ErrorKind::UnexpectedEnd, i))
    } else {
        let t = ts[i];
        if t.kind == Token::RParen {
            Ok((i + 1, acc))
        } else if t.kind == Token::Ident {
            param_list(ts, i + 1, acc.push(t.text@))
        } else if t.kind == Token::Whitespace || t.kind == Token::Comma {
            param_list(ts, i + 1, acc)
        } else {
            Err(fail(ErrorKind::ExpectedRParen, i))
        }
    }
}

/// The template of a function macro, read from `i` up to the terminating `end`:
/// the token texts verbatim, `return` keywords dropped, and whitespace dropped at
/// both ends (`pend` holds whitespace that is kept only if more text follows).
/// Whitespace after the `end` belongs to the directive.
pub open spec fn body_text(ts: Seq<TokenWithText>, i: int, acc: Seq<char>, pend: Seq<char>) -> Result<
    (int, Seq<char>),
    MacroError,
>
    decreases ts.len() - i,
{
    if !(0 <= i < ts.len()) {
        Err(fail(ErrorKind::UnterminatedBody, i))
    } else {
        let t = ts[i];
        if t.kind == Token::EndKw {
            Ok((ws_end(ts, i + 1), acc))
        } else if t.kind == Token::ReturnKw {
            body_text(ts, i + 1, acc, pend)
        } else if t.kind == Token::Whitespace {
            if acc.len() == 0 {
                body_text(ts, i + 1, acc, pend)
            } else {
                body_text(ts, i + 1, acc, pend + t.text@)
            }
        } else {
            body_text(ts, i + 1, acc + pend + t.text@, Seq::empty())
        }
    }
}

/// A macro definition read from the tokens: where reading stopped, the
/// macro's name and its value.
pub struct DefSpec {
    pub end: int,
    pub name: Seq<char>,
    pub def: MacroDef,
}

/// `IDENT WS* "=" WS* <tokens up to whitespace>`, with `ts[i]` the name.
pub open spec fn value_def(ts: Seq<TokenWithText>, i: int) -> Result<DefSpec, MacroError> {
    let j = ws_end(ts, i + 1);
    if j >= ts.len() {
        Err(fail(ErrorKind::UnexpectedEnd, j))
    } else if ts[j].kind != Token::Assign {
        Err(fail(ErrorKind::ExpectedAssign, j))
    } else {
        let k = ws_end(ts, j + 1);
        if k >= ts.len() {
            Err(fail(ErrorKind::UnexpectedEnd, k))
        } else {
            let e = run_end(ts, k);
            Ok(
                DefSpec {
                    end: e,
                    name: ts[i].text@,
                    def: MacroDef { params: Seq::empty(), template: texts(ts, k, e) },
                },
            )
        }
    }
}

/// `"function" WS IDENT WS* "(" params ")" template "end"`, with `ts[i]` the keyword.
pub open spec fn function_def(ts: Seq<TokenWithText>, i: int) -> Result<DefSpec, MacroError> {
    let j = ws_end(ts, i + 1);
    if j >= ts.len() {
        Err(fail(ErrorKind::UnexpectedEnd, j))
    } else if ts[j].kind != Token::Ident {
        Err(fail(ErrorKind::ExpectedName, j))
    } else {
        let k = ws_end(ts, j + 1);
        if k >= ts.len() {
            Err(fail(ErrorKind::UnexpectedEnd, k))
        } else if ts[k].kind != Token::LParen {
            Err(fail(ErrorKind::ExpectedLParen, k))
        } else {
            match param_list(ts, k + 1, Seq::empty()) {
                Err(e) => Err(e),
                Ok((p, params)) => match body_text(ts, p, Seq::empty(), Seq::empty()) {
                    Err(e) => Err(e),
                    Ok((e, template)) => Ok(
                        DefSpec { end: e, name: ts[j].text@, def: MacroDef { params, template } },
                    ),
                },
            }
        }
    }
}

/// A value or function macro definition starting at `i`.
pub open spec fn definition(ts: Seq<TokenWithText>, i: int) -> Result<DefSpec, MacroError> {
    if !(0 <= i < ts.len()) {
        Err(fail(ErrorKind::UnexpectedEnd, i))
    } else if ts[i].kind == Token::Ident {
        value_def(ts, i)
    } else if ts[i].kind == Token::FunctionKw {
        function_def(ts, i)
    } else {
        Err(fail(ErrorKind::BadIntroducer, i))
    }
}

/// A macro directive whose comment token stands at `i`:
/// `MACRO-COMMENT WS [ "local" WS ] body`. The flag tells whether it is `local`.
pub open spec fn directive(ts: Seq<TokenWithText>, i: int) -> Result<(bool, DefSpec), MacroError> {
    if i + 1 >= ts.len() {
        Err(fail(ErrorKind::UnexpectedEnd, i + 1))
    } else if ts[i + 1].kind != Token::Whitespace {
        Err(fail(ErrorKind::MissingWhitespace, i + 1))
    } else {
        let j = ws_end(ts, i + 1);
        if j < ts.len() && ts[j].kind == Token::LocalKw {
            match definition(ts, ws_end(ts, j + 1)) {
                Ok(d) => Ok((true, d)),
                Err(e) => Err(e),
            }
        } else {
            match definition(ts, j) {
                Ok(d) => Ok((false, d)),
                Err(e) => Err(e),
            }
        }
    }
}

pub proof fn lemma_param_list_progress(ts: Seq<TokenWithText>, i: int, acc: Seq<Seq<char>>)
    requires
        0 <= i,
    ensures
        param_list(ts, i, acc) matches Ok((p, _)) ==> i < p <= ts.len(),
    decreases ts.len() - i,
{
    if 0 <= i < ts.len() {
        lemma_param_list_progress(ts, i + 1, acc);
        lemma_param_list_progress(ts, i + 1, acc.push(ts[i].text@));
    }
}

pub proof fn lemma_body_text_progress(ts: Seq<TokenWithText>, i: int, acc: Seq<char>, pend: Seq<char>)
    requires
        0 <= i,
    ensures
        body_text(ts, i, acc, pend) matches Ok((e, _)) ==> i < e <= ts.len(),
    decreases ts.len() - i,
{
    if 0 <= i < ts.len() {
        let t = ts[i];
        if t.kind == Token::EndKw {
            lemma_ws_end(ts, i + 1);
        }
        lemma_body_text_progress(ts, i + 1, acc, pend);
        lemma_body_text_progress(ts, i + 1, acc, pend + t.text@);
        lemma_body_text_progress(ts, i + 1, acc + pend + t.text@, Seq::empty());
    }
}

pub proof fn lemma_definition_progress(ts: Seq<TokenWithText>, i: int)
    requires
        0 <= i,
    ensures
        definition(ts, i) matches Ok(d) ==> i < d.end <= ts.len(),
{
    if 0 <= i < ts.len() {
        lemma_ws_end(ts, i + 1);
        let j = ws_end(ts, i + 1);
        if j < ts.len() {
            lemma_ws_end(ts, j + 1);
            let k = ws_end(ts, j + 1);
            if k < ts.len() {
                lemma_run_end(ts, k);
                lemma_ws_end(ts, k + 1);
                lemma_param_list_progress(ts, k + 1, Seq::empty());
                if let Ok((p, _)) = param_list(ts, k + 1, Seq::empty()) {
                    lemma_body_text_progress(ts, p, Seq::empty(), Seq::empty());
                }
            }
        }
    }
}

pub proof fn lemma_directive_progress(ts: Seq<TokenWithText>, i: int)
    requires
        0 <= i,
    ensures
        directive(ts, i) matches Ok((_, d)) ==> i < d.end <= ts.len(),
{
    if i + 1 < ts.len() {
        lemma_ws_end(ts, i + 1);
        let j = ws_end(ts, i + 1);
        if j < ts.len() {
            lemma_ws_end(ts, j + 1);
            lemma_definition_progress(ts, ws_end(ts, j + 1));
        }
        lemma_definition_progress(ts, j);
    }
}

pub fn skip_ws(ts: &Vec<TokenWithText>, i: usize) -> (r: usize)
    requires
        i <= ts@.len(),
    ensures
        r == ws_end(ts@, i as int),
        i <= r <= ts@.len(),
{
    let mut j = i;
    while j < ts.len() && ts[j].kind == Token::Whitespace
        invariant
            i <= j <= ts@.len(),
            ws_end(ts@, i as int) == ws_end(ts@, j as int),
        decreases ts@.len() - j,
    {
        j += 1;
    }
    j
}

pub fn skip_run(ts: &Vec<TokenWithText>, i: usize) -> (r: usize)
    requires
        i <= ts@.len(),
    ensures
        r == run_end(ts@, i as int),
        i <= r <= ts@.len(),
{
    let mut j = i;
    while j < ts.len() && ts[j].kind != Token::Whitespace
        invariant
            i <= j <= ts@.len(),
            run_end(ts@, i as int) == run_end(ts@, j as int),
        decreases ts@.len() - j,
    {
        j += 1;
    }
    j
}

/// Appends the texts of the tokens in `[a, b)` to `out`.
pub fn push_texts(out: &mut String, ts: &Vec<TokenWithText>, a: usize, b: usize)
    requires
        a <= b <= ts@.len(),
    ensures
        final(out)@ == old(out)@ + texts(ts@, a as int, b as int),
{
    let mut j = a;
    while j < b
        invariant
            a <= j <= b <= ts@.len(),
            out@ == old(out)@ + texts(ts@, a as int, j as int),
        decreases b - j,
    {
        out.append(ts[j].text.as_str());
        assert(out@ =~= old(out)@ + texts(ts@, a as int, j + 1));
        j += 1;
    }
}

fn parse_params(ts: &Vec<TokenWithText>, i: usize) -> (r: Result<(usize, Vec<String>), MacroError>)
    requires
        i <= ts@.len(),
    ensures
        match (r, param_list(ts@, i as int, Seq::empty())) {
            (Ok((p, ps)), Ok((sp, sps))) => p == sp && strings_view(ps@) == sps,
            (Err(e), Err(se)) => e == se,
            _ => false,
        },
{
    let mut acc: Vec<String> = Vec::new();
    let mut j = i;
    assert(strings_view(acc@) =~= Seq::<Seq<char>>::empty());
    while j < ts.len()
        invariant
            i <= j <= ts@.len(),
            param_list(ts@, j as int, strings_view(acc@)) == param_list(
                ts@,
                i as int,
                Seq::empty(),
            ),
        decreases ts@.len() - j,
    {
        let k = ts[j].kind;
        if k == Token::RParen {
            return Ok((j + 1, acc));
        } else if k == Token::Ident {
            let ghost before = strings_view(acc@);
            acc.push(ts[j].text.clone());
            assert(strings_view(acc@) =~= before.push(ts@[j as int].text@));
        } else if k == Token::Whitespace || k == Token::Comma {
        } else {
            return Err(make_error(ErrorKind::ExpectedRParen, j));
        }
        j += 1;
    }
    Err(make_error(ErrorKind::UnexpectedEnd, j))
}

fn parse_body(ts: &Vec<TokenWithText>, i: usize) -> (r: Result<(usize, String), MacroError>)
    requires
        i <= ts@.len(),
    ensures
        match (r, body_text(ts@, i as int, Seq::empty(), Seq::empty())) {
            (Ok((e, t)), Ok((se, st))) => e == se && t@ == st,
            (Err(e), Err(se)) => e == se,
            _ => false,
        },
{
    let mut acc = String::new();
    let mut pend = String::new();
    let mut j = i;
    while j < ts.len()
        invariant
            i <= j <= ts@.len(),
            body_text(ts@, j as int, acc@, pend@) == body_text(
                ts@,
                i as int,
                Seq::empty(),
                Seq::empty(),
            ),
        decreases ts@.len() - j,
    {
        let k = ts[j].kind;
        if k == Token::EndKw {
            let e = skip_ws(ts, j + 1);
            return Ok((e, acc));
        } else if k == Token::ReturnKw {
        } else if k == Token::Whitespace {
            if !acc.as_str().is_empty() {
                pend.append(ts[j].text.as_str());
            }
        } else {
            acc.append(pend.as_str());
            acc.append(ts[j].text.as_str());
            pend = String::new();
        }
        j += 1;
    }
    Err(make_error(ErrorKind::UnterminatedBody, j))
}

/// A macro definition read from the tokens, in executable form.
pub struct Definition {
    pub end: usize,
    pub name: String,
    pub def: Macro,
}

pub open spec fn definition_matches(r: Result<Definition, MacroError>, s: Result<DefSpec, MacroError>) -> bool {
    match (r, s) {
        (Ok(d), Ok(sd)) => d.end == sd.end && d.name@ == sd.name && d.def@ == sd.def,
        (Err(e), Err(se)) => e == se,
        _ => false,
    }
}

pub fn parse_definition(ts: &Vec<TokenWithText>, i: usize) -> (r: Result<Definition, MacroError>)
    requires
        i <= ts@.len(),
    ensures
        definition_matches(r, definition(ts@, i as int)),
{
    if i >= ts.len() {
        return Err(make_error(ErrorKind::UnexpectedEnd, i));
    }
    let k = ts[i].kind;
    if k == Token::Ident {
        let j = skip_ws(ts, i + 1);
        if j >= ts.len() {
            return Err(make_error(ErrorKind::UnexpectedEnd, j));
        }
        if ts[j].kind != Token::Assign {
            return Err(make_error(ErrorKind::ExpectedAssign, j));
        }
        let v = skip_ws(ts, j + 1);
        if v >= ts.len() {
            return Err(make_error(ErrorKind::UnexpectedEnd, v));
        }
        let e = skip_run(ts, v);
        let mut template = String::new();
        push_texts(&mut template, ts, v, e);
        let params: Vec<String> = Vec::new();
        assert(strings_view(params@) =~= Seq::<Seq<char>>::empty());
        Ok(Definition { end: e, name: ts[i].text.clone(), def: Macro { params, template } })
    } else if k == Token::FunctionKw {
        let j = skip_ws(ts, i + 1);
        if j >= ts.len() {
            return Err(make_error(ErrorKind::UnexpectedEnd, j));
        }
        if ts[j].kind != Token::Ident {
            return Err(make_error(ErrorKind::ExpectedName, j));
        }
        let l = skip_ws(ts, j + 1);
        if l >= ts.len() {
            return Err(make_error(ErrorKind::UnexpectedEnd, l));
        }
        if ts[l].kind != Token::LParen {
            return Err(make_error(ErrorKind::ExpectedLParen, l));
        }
        let (p, params) = match parse_params(ts, l + 1) {
            Ok(x) => x,
            Err(e) => return Err(e),
        };
        proof {
            lemma_param_list_progress(ts@, l + 1, Seq::empty());
        }
        let (e, template) = match parse_body(ts, p) {
            Ok(x) => x,
            Err(e) => return Err(e),
        };
        Ok(Definition { end: e, name: ts[j].text.clone(), def: Macro { params, template } })
    } else {
        Err(make_error(ErrorKind::BadIntroducer, i))
    }
}

/// Reads the macro directive whose comment token stands at `i`; the flag of
/// the result tells whether it is `local`.
pub fn parse_directive(ts: &Vec<TokenWithText>, i: usize) -> (r: Result<(bool, Definition), MacroError>)
    requires
        i < ts@.len(),
    ensures
        match (r, directive(ts@, i as int)) {
            (Ok((l, d)), Ok((sl, sd))) => l == sl && definition_matches(Ok(d), Ok(sd)),
            (Err(e), Err(se)) => e == se,
            _ => false,
        },
        r matches Ok((_, d)) ==> i < d.end <= ts@.len(),
{
    proof {
        lemma_directive_progress(ts@, i as int);
    }
    if ts.len() - i <= 1 {
        return Err(make_error(ErrorKind::UnexpectedEnd, i + 1));
    }
    if ts[i + 1].kind != Token::Whitespace {
        return Err(make_error(ErrorKind::MissingWhitespace, i + 1));
    }
    let j = skip_ws(ts, i + 1);
    if j < ts.len() && ts[j].kind == Token::LocalKw {
        let k = skip_ws(ts, j + 1);
        match parse_definition(ts, k) {
            Ok(d) => Ok((true, d)),
            Err(e) => Err(e),
        }
    } else {
        match parse_definition(ts, j) {
            Ok(d) => Ok((false, d)),
            Err(e) => Err(e),
        }
    }
}

} // verus!

verus! {

/// ASCII whitespace: space, tab, line feed, form feed, carriage return.
pub open spec fn is_space(c: char) -> bool {
    c == ' ' || c == '\t' || c == '\n' || c == '\x0C' || c == '\r'
}

/// The first position at or after `i` whose character is not whitespace.
pub open spec fn skip_spaces(s: Seq<char>, i: int) -> int
    decreases s.len() - i,
{
    if 0 <= i < s.len() && is_space(s[i]) {
        skip_spaces(s, i + 1)
    } else {
        i
    }
}

/// The first position at or after `i` whose character is whitespace, or the end.
pub open spec fn word_stop(s: Seq<char>, i: int) -> int
    decreases s.len() - i,
{
    if 0 <= i < s.len() && !is_space(s[i]) {
        word_stop(s, i + 1)
    } else {
        i
    }
}

pub open spec fn prefix_at(s: Seq<char>, i: int, p: Seq<char>) -> bool {
    0 <= i && i + p.len() <= s.len() && s.subrange(i, i + p.len()) == p
}

/// The name of a conditional comment `-- @if name ...`: leading whitespace,
/// `--` and `@if` are taken off where present, each followed by whitespace
/// that is taken off too, and the name runs up to the next whitespace.
pub open spec fn if_name(s: Seq<char>) -> Seq<char> {
    let a = skip_spaces(s, 0);
    let b = if prefix_at(s, a, seq!['-', '-']) {
        skip_spaces(s, a + 2)
    } else {
        a
    };
    let c = if prefix_at(s, b, seq!['@', 'i', 'f']) {
        skip_spaces(s, b + 3)
    } else {
        b
    };
    s.subrange(c, word_stop(s, c))
}

proof fn lemma_scan_spaces(s: Seq<char>, i: int)
    requires
        0 <= i <= s.len(),
    ensures
        i <= skip_spaces(s, i) <= s.len(),
        i <= word_stop(s, i) <= s.len(),
    decreases s.len() - i,
{
    if i < s.len() {
        lemma_scan_spaces(s, i + 1);
    }
}

fn space_at(s: &str, i: usize) -> (r: bool)
    requires
        i < s@.len(),
    ensures
        r == is_space(s@[i as int]),
{
    let c = s.get_char(i);
    c == ' ' || c == '\t' || c == '\n' || c == '\x0C' || c == '\r'
}

fn spaces_from(s: &str, n: usize, i: usize) -> (r: usize)
    requires
        n == s@.len(),
        i <= n,
    ensures
        r == skip_spaces(s@, i as int),
{
    let mut j = i;
    while j < n && space_at(s, j)
        invariant
            i <= j <= n,
            n == s@.len(),
            skip_spaces(s@, i as int) == skip_spaces(s@, j as int),
        decreases n - j,
    {
        j += 1;
    }
    j
}

/// Reads the name out of the text of a `-- @if name` comment.
pub fn parse_if_name(comment_text: &str) -> (r: &str)
    ensures
        r@ == if_name(comment_text@),
{
    let s = comment_text;
    let n = s.unicode_len();
    proof {
        lemma_scan_spaces(s@, 0);
    }
    let a = spaces_from(s, n, 0);
    let b = if n >= 2 && a <= n - 2 && s.get_char(a) == '-' && s.get_char(a + 1) == '-' {
        proof {
            assert(s@.subrange(a as int, a + 2) =~= seq!['-', '-']);
            lemma_scan_spaces(s@, a + 2);
        }
        spaces_from(s, n, a + 2)
    } else {
        proof {
            if prefix_at(s@, a as int, seq!['-', '-']) {
                assert(s@.subrange(a as int, a + 2)[0] == '-');
                assert(s@.subrange(a as int, a + 2)[1] == '-');
            }
        }
        a
    };
    let c = if n >= 3 && b <= n - 3 && s.get_char(b) == '@' && s.get_char(b + 1) == 'i' && s.get_char(b + 2)
        == 'f' {
        proof {
            assert(s@.subrange(b as int, b + 3) =~= seq!['@', 'i', 'f']);
            lemma_scan_spaces(s@, b + 3);
        }
        spaces_from(s, n, b + 3)
    } else {
        proof {
            if prefix_at(s@, b as int, seq!['@', 'i', 'f']) {
                assert(s@.subrange(b as int, b + 3)[0] == '@');
                assert(s@.subrange(b as int, b + 3)[1] == 'i');
                assert(s@.subrange(b as int, b + 3)[2] == 'f');
            }
        }
        b
    };
    proof {
        lemma_scan_spaces(s@, c as int);
    }
    let mut e = c;
    while e < n && !space_at(s, e)
        invariant
            c <= e <= n,
            n == s@.len(),
            word_stop(s@, c as int) == word_stop(s@, e as int),
        decreases n - e,
    {
        e += 1;
    }
    s.substring_char(c, e)
}

} // verus!
