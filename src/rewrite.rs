use vstd::prelude::*;
use vstd::string::*;
use crate::token::Token;

verus! {

/// A token with its source text, as the sugar rewrite reads it.
#[derive(Clone, Debug)]
pub struct Tok {
    pub kind: Token,
    pub text: String,
}

/// Macro bindings for a rewrite pass over tokens.
#[allow(dead_code)]
pub struct Rewriter {
    global_macros: std::collections::HashMap<String, String>,
    local_macros: std::collections::HashMap<String, String>,
}

/// The operator of a compound assignment token.
pub open spec fn op_char(k: Token) -> Option<char> {
    if k == Token::PlusEq {
        Some('+')
    } else if k == Token::MinusEq {
        Some('-')
    } else if k == Token::StarEq {
        Some('*')
    } else if k == Token::SlashEq {
        Some('/')
    } else {
        None
    }
}

pub open spec fn has_newline(s: Seq<char>) -> bool {
    s.contains('\n') || s.contains('\r')
}

pub open spec fn tok_texts(ts: Seq<Tok>, a: int, b: int) -> Seq<char>
    decreases b - a,
{
    if b <= a {
        Seq::empty()
    } else {
        tok_texts(ts, a, b - 1) + ts[b - 1].text@
    }
}

/// The first position at or after `i` that does not hold whitespace.
pub open spec fn skip_space(ts: Seq<Tok>, i: int) -> int
    decreases ts.len() - i,
{
    if 0 <= i < ts.len() && ts[i].kind == Token::Whitespace {
        skip_space(ts, i + 1)
    } else {
        i
    }
}

/// The first position at or after `i` that does not hold whitespace on one line.
pub open spec fn skip_inline_space(ts: Seq<Tok>, i: int) -> int
    decreases ts.len() - i,
{
    if 0 <= i < ts.len() && ts[i].kind == Token::Whitespace && !has_newline(ts[i].text@) {
        skip_inline_space(ts, i + 1)
    } else {
        i
    }
}

/// The end of a right-hand side that starts at `i`: the first `;`, comment,
/// or whitespace that holds a line break.
pub open spec fn rhs_end(ts: Seq<Tok>, i: int) -> int
    decreases ts.len() - i,
{
    if 0 <= i < ts.len() && ts[i].kind != Token::Semicolon && ts[i].kind != Token::Comment && !(
    ts[i].kind == Token::Whitespace && has_newline(ts[i].text@)) {
        rhs_end(ts, i + 1)
    } else {
        i
    }
}

/// `b` moved back over whitespace tokens, not below `a`.
pub open spec fn trim_back(ts: Seq<Tok>, a: int, b: int) -> int
    decreases b - a,
{
    if a < b && ts[b - 1].kind == Token::Whitespace {
        trim_back(ts, a, b - 1)
    } else {
        b
    }
}

pub proof fn lemma_scan_bounds(ts: Seq<Tok>, i: int)
    requires
        0 <= i <= ts.len(),
    ensures
        i <= skip_space(ts, i) <= ts.len(),
        i <= skip_inline_space(ts, i) <= ts.len(),
        i <= rhs_end(ts, i) <= ts.len(),
        skip_space(ts, i) < ts.len() ==> ts[skip_space(ts, i)].kind != Token::Whitespace,
    decreases ts.len() - i,
{
    if i < ts.len() {
        lemma_scan_bounds(ts, i + 1);
    }
}

pub proof fn lemma_trim_back(ts: Seq<Tok>, a: int, b: int)
    requires
        a <= b,
    ensures
        a <= trim_back(ts, a, b) <= b,
    decreases b - a,
{
    if a < b && ts[b - 1].kind == Token::Whitespace {
        lemma_trim_back(ts, a, b - 1);
    }
}

/// `left = left op (rhs)`.
pub open spec fn desugared(left: Seq<char>, op: char, rhs: Seq<char>) -> Seq<char> {
    left + seq![' ', '=', ' '] + left + seq![' ', op, ' ', '('] + rhs + seq![')']
}

/// The text of the tokens from `i` on with every compound assignment
/// `x op= rhs` on one line rewritten as `x = x op (rhs)`: the right-hand side
/// runs up to the first `;`, comment or line break and loses its trailing
/// whitespace; a `;` that ends it is kept. When a line break follows the
/// operator, the assignment is left as it stands.
pub open spec fn rewrite_from(ts: Seq<Tok>, i: int) -> Seq<char>
    decreases ts.len() - i,
{
    if !(0 <= i < ts.len()) {
        Seq::empty()
    } else if ts[i].kind != Token::Ident {
        ts[i].text@ + rewrite_from(ts, i + 1)
    } else {
        proof {
            lemma_scan_bounds(ts, i + 1);
        }
        let j = skip_space(ts, i + 1);
        if !(j < ts.len() && op_char(ts[j].kind) is Some) {
            tok_texts(ts, i, j) + rewrite_from(ts, j)
        } else {
            proof {
                lemma_scan_bounds(ts, j + 1);
            }
            let k = skip_inline_space(ts, j + 1);
            if k < ts.len() && ts[k].kind == Token::Whitespace {
                tok_texts(ts, i, j + 1) + rewrite_from(ts, j + 1)
            } else {
                proof {
                    lemma_scan_bounds(ts, k);
                }
                let m = rhs_end(ts, k);
                let stmt = desugared(
                    ts[i].text@,
                    op_char(ts[j].kind)->0,
                    tok_texts(ts, k, trim_back(ts, k, m)),
                );
                if m < ts.len() && ts[m].kind == Token::Semicolon {
                    stmt + ts[m].text@ + rewrite_from(ts, m + 1)
                } else {
                    stmt + rewrite_from(ts, m)
                }
            }
        }
    }
}

fn newline_in(s: &str) -> (r: bool)
    ensures
        r == has_newline(s@),
{
    let n = s.unicode_len();
    let mut i: usize = 0;
    while i < n
        invariant
            n == s@.len(),
            i <= n,
            forall|k: int| 0 <= k < i ==> s@[k] != '\n' && s@[k] != '\r',
        decreases n - i,
    {
        let c = s.get_char(i);
        if c == '\n' || c == '\r' {
            return true;
        }
        i += 1;
    }
    false
}

fn append_tok_texts(out: &mut String, ts: &[Tok], a: usize, b: usize)
    requires
        a <= b <= ts@.len(),
    ensures
        final(out)@ == old(out)@ + tok_texts(ts@, a as int, b as int),
{
    let mut j = a;
    while j < b
        invariant
            a <= j <= b <= ts@.len(),
            out@ == old(out)@ + tok_texts(ts@, a as int, j as int),
        decreases b - j,
    {
        out.append(ts[j].text.as_str());
        assert(out@ =~= old(out)@ + tok_texts(ts@, a as int, j + 1));
        j += 1;
    }
}

/// Rewrites compound assignments (`+=`, `-=`, `*=`, `/=`) into plain ones;
/// every other token is echoed verbatim.
pub fn rewrite_tokens(tokens: &[Tok]) -> (r: String)
    ensures
        r@ == rewrite_from(tokens@, 0),
{
    let ghost ts = tokens@;
    let n = tokens.len();
    let mut out = String::new();
    let mut i: usize = 0;
    while i < n
        invariant
            n == ts.len(),
            ts == tokens@,
            i <= n,
            out@ + rewrite_from(ts, i as int) == rewrite_from(ts, 0),
        decreases n - i,
    {
        let ghost before = out@;
        if tokens[i].kind != Token::Ident {
            out.append(tokens[i].text.as_str());
            assert(out@ + rewrite_from(ts, i + 1) =~= before + rewrite_from(ts, i as int));
            i += 1;
            continue;
        }
        proof {
            lemma_scan_bounds(ts, i + 1);
        }
        let mut j = i + 1;
        while j < n && tokens[j].kind == Token::Whitespace
            invariant
                i < j <= n,
                n == ts.len(),
                ts == tokens@,
                skip_space(ts, i + 1) == skip_space(ts, j as int),
            decreases n - j,
        {
            j += 1;
        }
        let op: char = if j < n {
            match tokens[j].kind {
                Token::PlusEq => '+',
                Token::MinusEq => '-',
                Token::StarEq => '*',
                Token::SlashEq => '/',
                _ => ' ',
            }
        } else {
            ' '
        };
        if op == ' ' {
            append_tok_texts(&mut out, tokens, i, j);
            assert(out@ + rewrite_from(ts, j as int) =~= before + rewrite_from(ts, i as int));
            i = j;
            continue;
        }
        proof {
            lemma_scan_bounds(ts, j + 1);
        }
        let mut k = j + 1;
        while k < n && tokens[k].kind == Token::Whitespace && !newline_in(tokens[k].text.as_str())
            invariant
                j < k <= n,
                n == ts.len(),
                ts == tokens@,
                skip_inline_space(ts, j + 1) == skip_inline_space(ts, k as int),
            decreases n - k,
        {
            k += 1;
        }
        if k < n && tokens[k].kind == Token::Whitespace {
            append_tok_texts(&mut out, tokens, i, j + 1);
            assert(out@ + rewrite_from(ts, j + 1) =~= before + rewrite_from(ts, i as int));
            i = j + 1;
            continue;
        }
        proof {
            lemma_scan_bounds(ts, k as int);
        }
        let mut m = k;
        while m < n && tokens[m].kind != Token::Semicolon && tokens[m].kind != Token::Comment && !(
        tokens[m].kind == Token::Whitespace && newline_in(tokens[m].text.as_str()))
            invariant
                k <= m <= n,
                n == ts.len(),
                ts == tokens@,
                rhs_end(ts, k as int) == rhs_end(ts, m as int),
            decreases n - m,
        {
            m += 1;
        }
        let mut t = m;
        while t > k && tokens[t - 1].kind == Token::Whitespace
            invariant
                k <= t <= m,
                m <= n,
                n == ts.len(),
                ts == tokens@,
                trim_back(ts, k as int, m as int) == trim_back(ts, k as int, t as int),
            decreases t,
        {
            t -= 1;
        }
        let left = tokens[i].text.as_str();
        out.append(left);
        out.append(" = ");
        out.append(left);
        out.append(" ");
        let mut op_text = String::new();
        op_text.append(if op == '+' {
            "+"
        } else if op == '-' {
            "-"
        } else if op == '*' {
            "*"
        } else {
            "/"
        });
        out.append(op_text.as_str());
        out.append(" (");
        append_tok_texts(&mut out, tokens, k, t);
        out.append(")");
        proof {
            reveal_strlit(" = ");
            reveal_strlit(" ");
            reveal_strlit(" (");
            reveal_strlit(")");
            reveal_strlit("+");
            reveal_strlit("-");
            reveal_strlit("*");
            reveal_strlit("/");
        }
        let ghost stmt = desugared(ts[i as int].text@, op, tok_texts(ts, k as int, t as int));
        assert(out@ =~= before + stmt);
        if m < n && tokens[m].kind == Token::Semicolon {
            out.append(tokens[m].text.as_str());
            assert(out@ + rewrite_from(ts, m + 1) =~= before + rewrite_from(ts, i as int));
            i = m + 1;
        } else {
            assert(out@ + rewrite_from(ts, m as int) =~= before + rewrite_from(ts, i as int));
            i = m;
        }
    }
    out
}

} // verus!
