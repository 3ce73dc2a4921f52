use vstd::prelude::*;
use crate::directive::{directive, lemma_directive_progress};
use crate::error::{fail, ErrorKind, MacroError};
use crate::macros::{subst, MacroDef};
use crate::scope::{innermost_def, resolve, shadowed_from};
use crate::token::{lemma_ws_end, texts, ws_end, Token, TokenWithText};

verus! {

/// The state of an expansion: the position in the tokens, the text produced
/// so far, and the stacks of macro frames and shadow frames.
pub struct ExpandState {
    pub pos: int,
    pub out: Seq<char>,
    pub scopes: Seq<Map<Seq<char>, MacroDef>>,
    pub shadows: Seq<Set<Seq<char>>>,
}

/// Appends the texts of the tokens from the current position up to `b`, and moves there.
pub open spec fn echo(ts: Seq<TokenWithText>, s: ExpandState, b: int) -> ExpandState {
    ExpandState { pos: b, out: s.out + texts(ts, s.pos, b), ..s }
}

pub open spec fn push_frame(s: ExpandState) -> ExpandState {
    ExpandState { scopes: s.scopes.push(Map::empty()), shadows: s.shadows.push(Set::empty()), ..s }
}

pub open spec fn pop_frame(s: ExpandState) -> ExpandState {
    ExpandState { scopes: s.scopes.drop_last(), shadows: s.shadows.drop_last(), ..s }
}

/// Records `name` as an ordinary binding in the shadow frame at `depth`.
pub open spec fn shadow_at(s: ExpandState, depth: int, name: Seq<char>) -> ExpandState {
    ExpandState { shadows: s.shadows.update(depth, s.shadows[depth].insert(name)), ..s }
}

/// Registers a macro in the innermost frame.
pub open spec fn define_top(s: ExpandState, name: Seq<char>, m: MacroDef) -> ExpandState {
    ExpandState {
        scopes: s.scopes.update(s.scopes.len() - 1, s.scopes.last().insert(name, m)),
        ..s
    }
}

/// The formal parameters of a function declaration from `i` up to its `)`:
/// the position after the `)` and the names seen.
pub open spec fn decl_params(ts: Seq<TokenWithText>, i: int, names: Set<Seq<char>>) -> Result<
    (int, Set<Seq<char>>),
    MacroError,
>
    decreases ts.len() - i,
{
    if !(0 <= i < ts.len()) {
        Err(fail(ErrorKind::UnexpectedEnd, i))
    } else if ts[i].kind == Token::RParen {
        Ok((i + 1, names))
    } else if ts[i].kind == Token::Ident {
        decl_params(ts, i + 1, names.insert(ts[i].text@))
    } else {
        decl_params(ts, i + 1, names)
    }
}

/// A function declaration at the current position (its `function` keyword):
/// its name becomes a binding of the global frame (`global`) or of the
/// innermost one, then a frame opens whose shadow frame holds the parameters.
/// All of it is echoed.
pub open spec fn function_decl(ts: Seq<TokenWithText>, s: ExpandState, global: bool) -> Result<
    ExpandState,
    MacroError,
> {
    let j = ws_end(ts, s.pos + 1);
    if j >= ts.len() {
        Err(fail(ErrorKind::UnexpectedEnd, j))
    } else {
        let named = ts[j].kind == Token::Ident;
        let s1 = if !named {
            s
        } else if global {
            shadow_at(s, 0, ts[j].text@)
        } else {
            shadow_at(s, s.shadows.len() - 1, ts[j].text@)
        };
        let k = ws_end(ts, if named { j + 1 } else { j });
        if k >= ts.len() {
            Err(fail(ErrorKind::UnexpectedEnd, k))
        } else if ts[k].kind != Token::LParen {
            Err(fail(ErrorKind::ExpectedLParen, k))
        } else {
            match decl_params(ts, k + 1, Set::empty()) {
                Err(e) => Err(e),
                Ok((e, names)) => Ok(
                    ExpandState {
                        pos: e,
                        out: s.out + texts(ts, s.pos, e),
                        scopes: s1.scopes.push(Map::empty()),
                        shadows: s1.shadows.push(names),
                    },
                ),
            }
        }
    }
}

/// `local` at the current position: a local function declaration, or a
/// local variable whose name becomes a binding of the innermost frame.
pub open spec fn local_decl(ts: Seq<TokenWithText>, s: ExpandState) -> Result<ExpandState, MacroError> {
    let j = ws_end(ts, s.pos + 1);
    if j >= ts.len() {
        Err(fail(ErrorKind::UnexpectedEnd, j))
    } else if ts[j].kind == Token::FunctionKw {
        function_decl(ts, echo(ts, s, j), false)
    } else if ts[j].kind == Token::Ident {
        Ok(echo(ts, shadow_at(s, s.shadows.len() - 1, ts[j].text@), j + 1))
    } else {
        Err(fail(ErrorKind::ExpectedName, j))
    }
}

/// A macro directive met during expansion: a `local` one registers its macro
/// in the innermost frame, another one is only checked. Nothing is echoed.
pub open spec fn local_directive(ts: Seq<TokenWithText>, s: ExpandState) -> Result<ExpandState, MacroError> {
    match directive(ts, s.pos) {
        Err(e) => Err(e),
        Ok((local, d)) => {
            let s1 = if local {
                define_top(s, d.name, d.def)
            } else {
                s
            };
            Ok(ExpandState { pos: d.end, ..s1 })
        },
    }
}

/// An alias directive `ALIAS-COMMENT WS "local" WS IDENT WS* "=" WS* IDENT`:
/// the target is resolved as an identifier would be, and its definition is
/// registered under the new name in the innermost frame. Nothing is echoed.
pub open spec fn alias(ts: Seq<TokenWithText>, s: ExpandState) -> Result<ExpandState, MacroError> {
    let i = s.pos;
    if i + 1 >= ts.len() {
        Err(fail(ErrorKind::UnexpectedEnd, i + 1))
    } else if ts[i + 1].kind != Token::Whitespace {
        Err(fail(ErrorKind::MissingWhitespace, i + 1))
    } else {
        let j = ws_end(ts, i + 1);
        if j >= ts.len() {
            Err(fail(ErrorKind::UnexpectedEnd, j))
        } else if ts[j].kind != Token::LocalKw {
            Err(fail(ErrorKind::AliasNotLocal, j))
        } else {
            let k = ws_end(ts, j + 1);
            if k >= ts.len() {
                Err(fail(ErrorKind::UnexpectedEnd, k))
            } else if ts[k].kind != Token::Ident {
                Err(fail(ErrorKind::ExpectedName, k))
            } else {
                let l = ws_end(ts, k + 1);
                if l >= ts.len() {
                    Err(fail(ErrorKind::UnexpectedEnd, l))
                } else if ts[l].kind != Token::Assign {
                    Err(fail(ErrorKind::ExpectedAssign, l))
                } else {
                    let m = ws_end(ts, l + 1);
                    if m >= ts.len() {
                        Err(fail(ErrorKind::UnexpectedEnd, m))
                    } else if ts[m].kind != Token::Ident {
                        Err(fail(ErrorKind::ExpectedName, m))
                    } else {
                        let target = ts[m].text@;
                        let d = innermost_def(s.scopes, target, s.scopes.len() as int);
                        if d < 0 {
                            Err(fail(ErrorKind::AliasUndefined, m))
                        } else if shadowed_from(s.shadows, target, d) {
                            Err(fail(ErrorKind::AliasShadowed, m))
                        } else {
                            let s1 = define_top(s, ts[k].text@, s.scopes[d][target]);
                            Ok(ExpandState { pos: ws_end(ts, m + 1), ..s1 })
                        }
                    }
                }
            }
        }
    }
}

/// The arguments of a macro use, from `i` (just after its `(`) up to the
/// matching `)`: split at commas outside nested parentheses, each without its
/// leading and trailing whitespace; an empty last argument is not counted.
pub open spec fn call_args(
    ts: Seq<TokenWithText>,
    i: int,
    depth: nat,
    cur: Seq<char>,
    pend: Seq<char>,
    args: Seq<Seq<char>>,
) -> Result<(int, Seq<Seq<char>>), MacroError>
    decreases ts.len() - i,
{
    if !(0 <= i < ts.len()) {
        Err(fail(ErrorKind::UnclosedArguments, i))
    } else {
        let t = ts[i];
        if t.kind == Token::RParen && depth == 0 {
            Ok((i + 1, if cur.len() == 0 { args } else { args.push(cur) }))
        } else if t.kind == Token::Comma && depth == 0 {
            call_args(ts, i + 1, 0, Seq::empty(), Seq::empty(), args.push(cur))
        } else if t.kind == Token::Whitespace {
            if cur.len() == 0 {
                call_args(ts, i + 1, depth, cur, pend, args)
            } else {
                call_args(ts, i + 1, depth, cur, pend + t.text@, args)
            }
        } else {
            let nd: nat = if t.kind == Token::LParen {
                depth + 1
            } else if t.kind == Token::RParen {
                (depth - 1) as nat
            } else {
                depth
            };
            call_args(ts, i + 1, nd, cur + pend + t.text@, Seq::empty(), args)
        }
    }
}

/// An identifier at the current position. Followed by `=`, it is an
/// assignment target: a binding of the global frame, echoed. Otherwise, if it
/// resolves to a macro, the use is replaced by the macro's text; else echoed.
pub open spec fn ident_use(ts: Seq<TokenWithText>, s: ExpandState) -> Result<ExpandState, MacroError> {
    let i = s.pos;
    let name = ts[i].text@;
    let j = ws_end(ts, i + 1);
    if j < ts.len() && ts[j].kind == Token::Assign {
        Ok(echo(ts, shadow_at(s, 0, name), j + 1))
    } else {
        match resolve(s.scopes, s.shadows, name) {
            None => Ok(echo(ts, s, j)),
            Some(m) => if m.params.len() == 0 {
                Ok(ExpandState { pos: j, out: s.out + m.template + texts(ts, i + 1, j), ..s })
            } else if j >= ts.len() {
                Err(fail(ErrorKind::UnexpectedEnd, j))
            } else if ts[j].kind != Token::LParen {
                Err(fail(ErrorKind::Arity { expected: m.params.len() as usize, found: 0 }, i))
            } else {
                match call_args(ts, j + 1, 0, Seq::empty(), Seq::empty(), Seq::empty()) {
                    Err(e) => Err(e),
                    Ok((e, args)) => if args.len() != m.params.len() {
                        Err(
                            fail(
                                ErrorKind::Arity {
                                    expected: m.params.len() as usize,
                                    found: args.len() as usize,
                                },
                                i,
                            ),
                        )
                    } else {
                        Ok(
                            ExpandState {
                                pos: e,
                                out: s.out + texts(ts, i + 1, j) + subst(m, args),
                                ..s
                            },
                        )
                    },
                }
            },
        }
    }
}

pub open spec fn opens_block(k: Token) -> bool {
    k == Token::DoKw || k == Token::ThenKw || k == Token::RepeatKw
}

pub open spec fn closes_block(k: Token) -> bool {
    k == Token::EndKw || k == Token::UntilKw
}

pub open spec fn branches_block(k: Token) -> bool {
    k == Token::ElseKw || k == Token::ElseIfKw
}

/// One step of the expansion at the current position, which is in range.
pub open spec fn step(ts: Seq<TokenWithText>, s: ExpandState) -> Result<ExpandState, MacroError> {
    let i = s.pos;
    let k = ts[i].kind;
    if k == Token::FunctionKw {
        function_decl(ts, s, true)
    } else if opens_block(k) {
        Ok(echo(ts, push_frame(s), i + 1))
    } else if closes_block(k) {
        if s.scopes.len() <= 1 {
            Err(fail(ErrorKind::UnbalancedBlock, i))
        } else {
            Ok(echo(ts, pop_frame(s), i + 1))
        }
    } else if branches_block(k) {
        if s.scopes.len() <= 1 {
            Err(fail(ErrorKind::UnbalancedBlock, i))
        } else {
            Ok(echo(ts, push_frame(pop_frame(s)), i + 1))
        }
    } else if k == Token::MacroComment {
        local_directive(ts, s)
    } else if k == Token::AliasComment {
        alias(ts, s)
    } else if k == Token::LocalKw {
        local_decl(ts, s)
    } else if k == Token::Ident {
        ident_use(ts, s)
    } else {
        Ok(echo(ts, s, i + 1))
    }
}

} // verus!

verus! {

pub proof fn lemma_decl_params_progress(ts: Seq<TokenWithText>, i: int, names: Set<Seq<char>>)
    requires
        0 <= i,
    ensures
        decl_params(ts, i, names) matches Ok((e, _)) ==> i < e <= ts.len(),
    decreases ts.len() - i,
{
    if 0 <= i < ts.len() {
        lemma_decl_params_progress(ts, i + 1, names);
        lemma_decl_params_progress(ts, i + 1, names.insert(ts[i].text@));
    }
}

pub proof fn lemma_call_args_progress(
    ts: Seq<TokenWithText>,
    i: int,
    depth: nat,
    cur: Seq<char>,
    pend: Seq<char>,
    args: Seq<Seq<char>>,
)
    requires
        0 <= i,
    ensures
        call_args(ts, i, depth, cur, pend, args) matches Ok((e, _)) ==> i < e <= ts.len(),
    decreases ts.len() - i,
{
    if 0 <= i < ts.len() {
        let t = ts[i];
        let nd: nat = if t.kind == Token::LParen {
            depth + 1
        } else if t.kind == Token::RParen {
            (depth - 1) as nat
        } else {
            depth
        };
        lemma_call_args_progress(ts, i + 1, 0, Seq::empty(), Seq::empty(), args.push(cur));
        lemma_call_args_progress(ts, i + 1, depth, cur, pend, args);
        lemma_call_args_progress(ts, i + 1, depth, cur, pend + t.text@, args);
        lemma_call_args_progress(ts, i + 1, nd, cur + pend + t.text@, Seq::empty(), args);
    }
}

pub proof fn lemma_function_decl_progress(ts: Seq<TokenWithText>, s: ExpandState, global: bool)
    requires
        0 <= s.pos < ts.len(),
    ensures
        function_decl(ts, s, global) matches Ok(s2) ==> s.pos < s2.pos <= ts.len(),
{
    lemma_ws_end(ts, s.pos + 1);
    let j = ws_end(ts, s.pos + 1);
    if j < ts.len() {
        lemma_ws_end(ts, j + 1);
        lemma_ws_end(ts, j);
        let k = ws_end(ts, if ts[j].kind == Token::Ident { j + 1 } else { j });
        lemma_decl_params_progress(ts, k + 1, Set::empty());
    }
}

pub proof fn lemma_step_progress(ts: Seq<TokenWithText>, s: ExpandState)
    requires
        0 <= s.pos < ts.len(),
    ensures
        step(ts, s) matches Ok(s2) ==> s.pos < s2.pos <= ts.len(),
{
    let i = s.pos;
    let k = ts[i].kind;
    lemma_ws_end(ts, i + 1);
    if k == Token::FunctionKw {
        lemma_function_decl_progress(ts, s, true);
    } else if k == Token::MacroComment {
        lemma_directive_progress(ts, i);
    } else if k == Token::AliasComment {
        let j = ws_end(ts, i + 1);
        if j < ts.len() {
            lemma_ws_end(ts, j + 1);
            let k2 = ws_end(ts, j + 1);
            if k2 < ts.len() {
                lemma_ws_end(ts, k2 + 1);
                let l = ws_end(ts, k2 + 1);
                if l < ts.len() {
                    lemma_ws_end(ts, l + 1);
                    let m = ws_end(ts, l + 1);
                    if m < ts.len() {
                        lemma_ws_end(ts, m + 1);
                    }
                }
            }
        }
    } else if k == Token::LocalKw {
        let j = ws_end(ts, i + 1);
        if j < ts.len() && ts[j].kind == Token::FunctionKw {
            lemma_function_decl_progress(ts, echo(ts, s, j), false);
        }
    } else if k == Token::Ident {
        let j = ws_end(ts, i + 1);
        if j < ts.len() {
            lemma_call_args_progress(ts, j + 1, 0, Seq::empty(), Seq::empty(), Seq::empty());
        }
    }
}

/// The global macros of a file, read from `i` on into `table`: the
/// definitions of the directives without `local`, a later one overriding an
/// earlier one of the same name.
pub open spec fn globals_from(ts: Seq<TokenWithText>, i: int, table: Map<Seq<char>, MacroDef>) -> Result<
    Map<Seq<char>, MacroDef>,
    MacroError,
>
    decreases ts.len() - i,
{
    if !(0 <= i < ts.len()) {
        Ok(table)
    } else if ts[i].kind == Token::MacroComment {
        match directive(ts, i) {
            Err(e) => Err(e),
            Ok((local, d)) => {
                proof {
                    lemma_directive_progress(ts, i);
                }
                globals_from(ts, d.end, if local { table } else { table.insert(d.name, d.def) })
            },
        }
    } else {
        globals_from(ts, i + 1, table)
    }
}

/// The table of macros that a file exports.
pub open spec fn global_table(ts: Seq<TokenWithText>) -> Result<Map<Seq<char>, MacroDef>, MacroError> {
    globals_from(ts, 0, Map::empty())
}

/// Tables merged in order, a later one overriding an earlier one.
pub open spec fn merge_all(tables: Seq<Map<Seq<char>, MacroDef>>) -> Map<Seq<char>, MacroDef>
    decreases tables.len(),
{
    if tables.len() == 0 {
        Map::empty()
    } else {
        merge_all(tables.drop_last()).union_prefer_right(tables.last())
    }
}

/// The global frame of a file: the exports of the files it requires, in the
/// order of its requires, then its own, which win over all of them.
pub open spec fn global_frame(
    deps: Seq<usize>,
    tables: Seq<Map<Seq<char>, MacroDef>>,
    own: Map<Seq<char>, MacroDef>,
) -> Map<Seq<char>, MacroDef> {
    merge_all(deps.map_values(|d: usize| tables[d as int])).union_prefer_right(own)
}

/// The whole expansion from state `s`: steps until the tokens are used up or
/// a step fails.
pub open spec fn run(ts: Seq<TokenWithText>, s: ExpandState) -> Result<ExpandState, MacroError>
    decreases ts.len() - s.pos,
{
    if !(0 <= s.pos < ts.len()) {
        Ok(s)
    } else {
        match step(ts, s) {
            Err(e) => Err(e),
            Ok(s2) => {
                proof {
                    lemma_step_progress(ts, s);
                }
                run(ts, s2)
            },
        }
    }
}

} // verus!

