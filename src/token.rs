use vstd::prelude::*;

verus! {

/// Kinds of tokens produced by the lexer and consumed by the macro engine.
#[derive(Debug, Clone, Copy, PartialEq, Eq, Structural)]
pub enum Token {
    MacroComment,
    AliasComment,
    IfComment,
    EndIfComment,
    Comment,
    FunctionKw,
    LocalKw,
    DoKw,
    EndKw,
    IfKw,
    ThenKw,
    ElseKw,
    ElseIfKw,
    ForKw,
    WhileKw,
    RepeatKw,
    UntilKw,
    ReturnKw,
    Require,
    LParen,
    RParen,
    Comma,
    Ident,
    String,
    Assign,
    PlusEq,
    MinusEq,
    StarEq,
    SlashEq,
    Semicolon,
    Whitespace,
    Other,
}

} // verus!

verus! {

/// A token together with the exact source text it covers.
#[derive(Clone, Debug)]
pub struct TokenWithText {
    pub kind: Token,
    pub text: String,
}

/// The first position at or after `i` that does not hold a whitespace token.
pub open spec fn ws_end(ts: Seq<TokenWithText>, i: int) -> int
    decreases ts.len() - i,
{
    if 0 <= i < ts.len() && ts[i].kind == Token::Whitespace {
        ws_end(ts, i + 1)
    } else {
        i
    }
}

/// The first position at or after `i` that holds a whitespace token, or the end.
pub open spec fn run_end(ts: Seq<TokenWithText>, i: int) -> int
    decreases ts.len() - i,
{
    if 0 <= i < ts.len() && ts[i].kind != Token::Whitespace {
        run_end(ts, i + 1)
    } else {
        i
    }
}

/// The source texts of the tokens in `[a, b)`, concatenated.
pub open spec fn texts(ts: Seq<TokenWithText>, a: int, b: int) -> Seq<char>
    decreases b - a,
{
    if b <= a {
        Seq::empty()
    } else {
        texts(ts, a, b - 1) + ts[b - 1].text@
    }
}

pub proof fn lemma_ws_end(ts: Seq<TokenWithText>, i: int)
    requires
        0 <= i <= ts.len(),
    ensures
        i <= ws_end(ts, i) <= ts.len(),
        forall|k: int| i <= k < ws_end(ts, i) ==> ts[k].kind == Token::Whitespace,
        ws_end(ts, i) < ts.len() ==> ts[ws_end(ts, i)].kind != Token::Whitespace,
    decreases ts.len() - i,
{
    if i < ts.len() && ts[i].kind == Token::Whitespace {
        lemma_ws_end(ts, i + 1);
    }
}

pub proof fn lemma_run_end(ts: Seq<TokenWithText>, i: int)
    requires
        0 <= i <= ts.len(),
    ensures
        i <= run_end(ts, i) <= ts.len(),
    decreases ts.len() - i,
{
    if i < ts.len() && ts[i].kind != Token::Whitespace {
        lemma_run_end(ts, i + 1);
    }
}

pub proof fn lemma_texts_split(ts: Seq<TokenWithText>, a: int, b: int, c: int)
    requires
        a <= b <= c,
    ensures
        texts(ts, a, c) == texts(ts, a, b) + texts(ts, b, c),
    decreases c - b,
{
    if b < c {
        lemma_texts_split(ts, a, b, c - 1);
        assert(texts(ts, a, c) =~= texts(ts, a, b) + texts(ts, b, c));
    } else {
        assert(texts(ts, b, c) =~= Seq::<char>::empty());
        assert(texts(ts, a, c) =~= texts(ts, a, b) + texts(ts, b, c));
    }
}

} // verus!
