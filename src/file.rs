use vstd::prelude::*;
use vstd::string::*;
use crate::directive::{parse_directive, push_texts, skip_ws};
use crate::error::{make_error, ErrorKind, MacroError};
use crate::expansion::{
    alias, call_args, decl_params, define_top, echo, function_decl, global_frame, global_table,
    globals_from, ident_use, lemma_call_args_progress, lemma_step_progress, local_decl,
    local_directive, merge_all, pop_frame, push_frame, run, shadow_at, step, ExpandState,
};
use crate::macros::{Macro, MacroDef};
use crate::scope::{innermost_def, shadowed_from, MacroTable, NameSet};
use crate::text::strings_view;
use crate::token::{Token, TokenWithText};

verus! {

pub open spec fn scopes_view(v: Seq<MacroTable>) -> Seq<Map<Seq<char>, MacroDef>> {
    v.map_values(|t: MacroTable| t@)
}

pub open spec fn shadows_view(v: Seq<NameSet>) -> Seq<Set<Seq<char>>> {
    v.map_values(|n: NameSet| n@)
}

/// Whether a method's result and the state it left agree with what the
/// expansion's definition gives.
pub open spec fn outcome(
    r: Result<(), MacroError>,
    after: ExpandState,
    expected: Result<ExpandState, MacroError>,
) -> bool {
    match expected {
        Ok(s) => r is Ok && after == s,
        Err(e) => r == Err::<(), MacroError>(e),
    }
}

/// The result of looking a name up in the scope stack.
pub enum Lookup {
    Undefined,
    Shadowed,
    Found(Macro),
}

/// One source file under expansion: its tokens, its frames and the output.
pub struct File {
    pub path: String,
    pub tokens: Vec<TokenWithText>,
    pub scope_stack: Vec<MacroTable>,
    pub shadow_stack: Vec<NameSet>,
    pub output: String,
    pub parse_index: usize,
}

impl File {
    /// The expansion state that the file holds.
    pub open spec fn state(&self) -> ExpandState {
        ExpandState {
            pos: self.parse_index as int,
            out: self.output@,
            scopes: scopes_view(self.scope_stack@),
            shadows: shadows_view(self.shadow_stack@),
        }
    }

    /// As many shadow frames as macro frames, and at least the global one.
    pub open spec fn wf(&self) -> bool {
        &&& self.scope_stack@.len() == self.shadow_stack@.len()
        &&& self.scope_stack@.len() >= 1
        &&& self.parse_index <= self.tokens@.len()
    }

    /// A file with the given tokens, an empty global frame and no output.
    pub fn new(path: String, tokens: Vec<TokenWithText>) -> (r: File)
        ensures
            r.wf(),
            r.path == path,
            r.tokens == tokens,
            r.state() == (ExpandState {
                pos: 0,
                out: Seq::empty(),
                scopes: seq![Map::empty()],
                shadows: seq![Set::empty()],
            }),
    {
        let mut scope_stack: Vec<MacroTable> = Vec::new();
        scope_stack.push(MacroTable::new());
        let mut shadow_stack: Vec<NameSet> = Vec::new();
        shadow_stack.push(NameSet::new());
        let r = File { path, tokens, scope_stack, shadow_stack, output: String::new(), parse_index: 0 };
        assert(scopes_view(r.scope_stack@) =~= seq![Map::empty()]);
        assert(shadows_view(r.shadow_stack@) =~= seq![Set::empty()]);
        r
    }

    fn echo_to(&mut self, b: usize)
        requires
            old(self).wf(),
            old(self).parse_index <= b <= old(self).tokens@.len(),
        ensures
            final(self).wf(),
            final(self).tokens == old(self).tokens,
            final(self).path == old(self).path,
            final(self).state() == echo(old(self).tokens@, old(self).state(), b as int),
    {
        push_texts(&mut self.output, &self.tokens, self.parse_index, b);
        self.parse_index = b;
    }

    fn enter_scope(&mut self)
        requires
            old(self).wf(),
        ensures
            final(self).wf(),
            final(self).tokens == old(self).tokens,
            final(self).path == old(self).path,
            final(self).state() == push_frame(old(self).state()),
    {
        self.scope_stack.push(MacroTable::new());
        self.shadow_stack.push(NameSet::new());
        assert(scopes_view(self.scope_stack@) =~= old(self).state().scopes.push(Map::empty()));
        assert(shadows_view(self.shadow_stack@) =~= old(self).state().shadows.push(Set::empty()));
    }

    fn exit_scope(&mut self)
        requires
            old(self).wf(),
            old(self).scope_stack@.len() > 1,
        ensures
            final(self).wf(),
            final(self).tokens == old(self).tokens,
            final(self).path == old(self).path,
            final(self).state() == pop_frame(old(self).state()),
    {
        self.scope_stack.pop();
        self.shadow_stack.pop();
        assert(scopes_view(self.scope_stack@) =~= old(self).state().scopes.drop_last());
        assert(shadows_view(self.shadow_stack@) =~= old(self).state().shadows.drop_last());
    }

    fn shadow(&mut self, depth: usize, name: String)
        requires
            old(self).wf(),
            depth < old(self).shadow_stack@.len(),
        ensures
            final(self).wf(),
            final(self).tokens == old(self).tokens,
            final(self).path == old(self).path,
            final(self).state() == shadow_at(old(self).state(), depth as int, name@),
    {
        let ghost name_v = name@;
        self.shadow_stack[depth].insert(name);
        assert(shadows_view(self.shadow_stack@) =~= old(self).state().shadows.update(
            depth as int,
            old(self).state().shadows[depth as int].insert(name_v),
        ));
    }

    fn define(&mut self, name: String, m: Macro)
        requires
            old(self).wf(),
        ensures
            final(self).wf(),
            final(self).tokens == old(self).tokens,
            final(self).path == old(self).path,
            final(self).state() == define_top(old(self).state(), name@, m@),
    {
        let ghost name_v = name@;
        let ghost m_v = m@;
        let top = self.scope_stack.len() - 1;
        self.scope_stack[top].insert(name, m);
        assert(scopes_view(self.scope_stack@) =~= old(self).state().scopes.update(
            top as int,
            old(self).state().scopes.last().insert(name_v, m_v),
        ));
    }

    fn find_macro(&self, name: &String) -> (r: Lookup)
        requires
            self.wf(),
        ensures
            ({
                let s = self.state();
                let d = innermost_def(s.scopes, name@, s.scopes.len() as int);
                match r {
                    Lookup::Undefined => d < 0,
                    Lookup::Shadowed => d >= 0 && shadowed_from(s.shadows, name@, d),
                    Lookup::Found(m) => d >= 0 && !shadowed_from(s.shadows, name@, d) && m@
                        == s.scopes[d][name@],
                }
            }),
    {
        let ghost s = self.state();
        let n = self.scope_stack.len();
        let mut j: usize = n;
        while j > 0
            invariant
                j <= n,
                n == self.scope_stack@.len(),
                n == self.shadow_stack@.len(),
                s == self.state(),
                innermost_def(s.scopes, name@, n as int) == innermost_def(s.scopes, name@, j as int),
            decreases j,
        {
            assert(s.scopes[j - 1] == self.scope_stack@[j - 1]@);
            match self.scope_stack[j - 1].get(name) {
                Some(m) => {
                    assert(innermost_def(s.scopes, name@, n as int) == j - 1);
                    let mut k: usize = j - 1;
                    while k < n
                        invariant
                            0 < j <= n,
                            s.scopes.len() == n,
                            s.shadows.len() == n,
                            innermost_def(s.scopes, name@, n as int) == j - 1,
                            m@ == s.scopes[j - 1][name@],
                            s.scopes[j - 1].contains_key(name@),
                            j - 1 <= k <= n,
                            n == self.shadow_stack@.len(),
                            s == self.state(),
                            forall|q: int| j - 1 <= q < k ==> !(#[trigger] s.shadows[q]).contains(name@),
                        decreases n - k,
                    {
                        assert(s.shadows[k as int] == self.shadow_stack@[k as int]@);
                        if self.shadow_stack[k].contains(name) {
                            assert(s.shadows[k as int].contains(name@));
                            return Lookup::Shadowed;
                        }
                        k += 1;
                    }
                    return Lookup::Found(m.duplicate());
                },
                None => {},
            }
            j -= 1;
        }
        Lookup::Undefined
    }


    /// A function declaration at the current position.
    #[verifier::loop_isolation(false)]
    fn parse_function_args(&mut self, is_global: bool) -> (r: Result<(), MacroError>)
        requires
            old(self).wf(),
            old(self).parse_index < old(self).tokens@.len(),
        ensures
            final(self).wf(),
            final(self).tokens == old(self).tokens,
            final(self).path == old(self).path,
            outcome(r, final(self).state(), function_decl(old(self).tokens@, old(self).state(), is_global)),
    {
        let ghost s = self.state();
        let ghost ts = self.tokens@;
        let i = self.parse_index;
        let n = self.tokens.len();
        let j = skip_ws(&self.tokens, i + 1);
        if j >= self.tokens.len() {
            return Err(make_error(ErrorKind::UnexpectedEnd, j));
        }
        let named = self.tokens[j].kind == Token::Ident;
        let mut after = j;
        if named {
            let name = self.tokens[j].text.clone();
            if is_global {
                self.shadow(0, name);
            } else {
                let top = self.shadow_stack.len() - 1;
                self.shadow(top, name);
            }
            after = j + 1;
        }
        let ghost s1 = self.state();
        let k = skip_ws(&self.tokens, after);
        if k >= self.tokens.len() {
            return Err(make_error(ErrorKind::UnexpectedEnd, k));
        }
        if self.tokens[k].kind != Token::LParen {
            return Err(make_error(ErrorKind::ExpectedLParen, k));
        }
        let mut names = NameSet::new();
        let mut p = k + 1;
        while p < self.tokens.len()
            invariant
                i < k < p <= self.tokens@.len(),
                ts == self.tokens@,
                s1 == self.state(),
                self.wf(),
                self.parse_index == i,
                self.tokens == old(self).tokens,
                self.path == old(self).path,
                decl_params(ts, p as int, names@) == decl_params(ts, k + 1, Set::empty()),
            decreases self.tokens@.len() - p,
        {
            let kind = self.tokens[p].kind;
            if kind == Token::RParen {
                self.scope_stack.push(MacroTable::new());
                self.shadow_stack.push(names);
                push_texts(&mut self.output, &self.tokens, i, p + 1);
                self.parse_index = p + 1;
                assert(scopes_view(self.scope_stack@) =~= s1.scopes.push(Map::empty()));
                assert(shadows_view(self.shadow_stack@) =~= s1.shadows.push(names@));
                return Ok(());
            } else if kind == Token::Ident {
                names.insert(self.tokens[p].text.clone());
            }
            p += 1;
        }
        Err(make_error(ErrorKind::UnexpectedEnd, p))
    }

    /// `local` at the current position.
    fn parse_local(&mut self) -> (r: Result<(), MacroError>)
        requires
            old(self).wf(),
            old(self).parse_index < old(self).tokens@.len(),
        ensures
            final(self).wf(),
            final(self).tokens == old(self).tokens,
            final(self).path == old(self).path,
            outcome(r, final(self).state(), local_decl(old(self).tokens@, old(self).state())),
    {
        let i = self.parse_index;
        let n = self.tokens.len();
        let j = skip_ws(&self.tokens, i + 1);
        if j >= self.tokens.len() {
            return Err(make_error(ErrorKind::UnexpectedEnd, j));
        }
        if self.tokens[j].kind == Token::FunctionKw {
            self.echo_to(j);
            return self.parse_function_args(false);
        }
        if self.tokens[j].kind == Token::Ident {
            let name = self.tokens[j].text.clone();
            let top = self.shadow_stack.len() - 1;
            self.shadow(top, name);
            self.echo_to(j + 1);
            return Ok(());
        }
        Err(make_error(ErrorKind::ExpectedName, j))
    }

    /// A macro directive met during expansion.
    fn parse_local_macro(&mut self) -> (r: Result<(), MacroError>)
        requires
            old(self).wf(),
            old(self).parse_index < old(self).tokens@.len(),
        ensures
            final(self).wf(),
            final(self).tokens == old(self).tokens,
            final(self).path == old(self).path,
            outcome(r, final(self).state(), local_directive(old(self).tokens@, old(self).state())),
    {
        match parse_directive(&self.tokens, self.parse_index) {
            Err(e) => Err(e),
            Ok((local, d)) => {
                if local {
                    self.define(d.name, d.def);
                }
                self.parse_index = d.end;
                Ok(())
            },
        }
    }

    /// An alias directive at the current position.
    fn parse_alias(&mut self) -> (r: Result<(), MacroError>)
        requires
            old(self).wf(),
            old(self).parse_index < old(self).tokens@.len(),
        ensures
            final(self).wf(),
            final(self).tokens == old(self).tokens,
            final(self).path == old(self).path,
            outcome(r, final(self).state(), alias(old(self).tokens@, old(self).state())),
    {
        let i = self.parse_index;
        if self.tokens.len() - i <= 1 {
            return Err(make_error(ErrorKind::UnexpectedEnd, i + 1));
        }
        if self.tokens[i + 1].kind != Token::Whitespace {
            return Err(make_error(ErrorKind::MissingWhitespace, i + 1));
        }
        let j = skip_ws(&self.tokens, i + 1);
        if j >= self.tokens.len() {
            return Err(make_error(ErrorKind::UnexpectedEnd, j));
        }
        if self.tokens[j].kind != Token::LocalKw {
            return Err(make_error(ErrorKind::AliasNotLocal, j));
        }
        let k = skip_ws(&self.tokens, j + 1);
        if k >= self.tokens.len() {
            return Err(make_error(ErrorKind::UnexpectedEnd, k));
        }
        if self.tokens[k].kind != Token::Ident {
            return Err(make_error(ErrorKind::ExpectedName, k));
        }
        let l = skip_ws(&self.tokens, k + 1);
        if l >= self.tokens.len() {
            return Err(make_error(ErrorKind::UnexpectedEnd, l));
        }
        if self.tokens[l].kind != Token::Assign {
            return Err(make_error(ErrorKind::ExpectedAssign, l));
        }
        let m = skip_ws(&self.tokens, l + 1);
        if m >= self.tokens.len() {
            return Err(make_error(ErrorKind::UnexpectedEnd, m));
        }
        if self.tokens[m].kind != Token::Ident {
            return Err(make_error(ErrorKind::ExpectedName, m));
        }
        let target = self.tokens[m].text.clone();
        match self.find_macro(&target) {
            Lookup::Undefined => Err(make_error(ErrorKind::AliasUndefined, m)),
            Lookup::Shadowed => Err(make_error(ErrorKind::AliasShadowed, m)),
            Lookup::Found(def) => {
                let name = self.tokens[k].text.clone();
                self.define(name, def);
                self.parse_index = skip_ws(&self.tokens, m + 1);
                Ok(())
            },
        }
    }

    /// Reads the macros that the file exports, from its directives without
    /// `local`. The cursor goes back to the start and the output is emptied.
    #[verifier::loop_isolation(false)]
    pub fn parse_global_macros(&mut self) -> (r: Result<MacroTable, MacroError>)
        requires
            old(self).wf(),
        ensures
            final(self).wf(),
            final(self).tokens == old(self).tokens,
            final(self).path == old(self).path,
            final(self).state() == (ExpandState { pos: 0, out: Seq::empty(), ..old(self).state() }),
            match (r, global_table(old(self).tokens@)) {
                (Ok(t), Ok(m)) => t@ == m,
                (Err(e), Err(se)) => e == se,
                _ => false,
            },
    {
        self.parse_index = 0;
        self.output = String::new();
        let mut table = MacroTable::new();
        let mut i: usize = 0;
        while i < self.tokens.len()
            invariant
                i <= self.tokens@.len(),
                globals_from(self.tokens@, i as int, table@) == global_table(self.tokens@),
            decreases self.tokens@.len() - i,
        {
            if self.tokens[i].kind == Token::MacroComment {
                match parse_directive(&self.tokens, i) {
                    Err(e) => {
                        return Err(e);
                    },
                    Ok((local, d)) => {
                        if !local {
                            table.insert(d.name, d.def);
                        }
                        i = d.end;
                    },
                }
            } else {
                i += 1;
            }
        }
        Ok(table)
    }

    /// Makes the global frame the only frame: the exports of the files that
    /// file `id` requires, then its own, with no bindings.
    pub fn set_stacks(&mut self, id: usize, require_relations: &Vec<Vec<usize>>, global_macro_map: &Vec<MacroTable>)
        requires
            old(self).wf(),
            id < require_relations@.len(),
            id < global_macro_map@.len(),
            forall|k: int| 0 <= k < require_relations@[id as int]@.len()
                ==> #[trigger] require_relations@[id as int]@[k] < global_macro_map@.len(),
        ensures
            final(self).wf(),
            final(self).tokens == old(self).tokens,
            final(self).path == old(self).path,
            final(self).state() == (ExpandState {
                scopes: seq![global_frame(require_relations@[id as int]@, scopes_view(global_macro_map@), global_macro_map@[id as int]@)],
                shadows: seq![Set::empty()],
                ..old(self).state()
            }),
    {
        let ghost tables = scopes_view(global_macro_map@);
        let deps = &require_relations[id];
        let mut frame = MacroTable::new();
        let mut k: usize = 0;
        while k < deps.len()
            invariant
                k <= deps@.len(),
                deps == require_relations@[id as int],
                tables == scopes_view(global_macro_map@),
                forall|q: int| 0 <= q < deps@.len() ==> #[trigger] deps@[q] < global_macro_map@.len(),
                frame@ == merge_all(deps@.take(k as int).map_values(|d: usize| tables[d as int])),
            decreases deps@.len() - k,
        {
            frame.extend_from(&global_macro_map[deps[k]]);
            proof {
                let f = |d: usize| tables[d as int];
                assert(deps@.take(k + 1).map_values(f).drop_last() =~= deps@.take(k as int).map_values(f));
            }
            k += 1;
        }
        proof {
            assert(deps@.take(k as int) =~= deps@);
        }
        frame.extend_from(&global_macro_map[id]);
        let mut scope_stack: Vec<MacroTable> = Vec::new();
        scope_stack.push(frame);
        let mut shadow_stack: Vec<NameSet> = Vec::new();
        shadow_stack.push(NameSet::new());
        self.scope_stack = scope_stack;
        self.shadow_stack = shadow_stack;
        assert(scopes_view(self.scope_stack@) =~= seq![global_frame(require_relations@[id as int]@, tables, global_macro_map@[id as int]@)]);
        assert(shadows_view(self.shadow_stack@) =~= seq![Set::<Seq<char>>::empty()]);
    }

    /// An identifier at the current position.
    fn parse_ident(&mut self) -> (r: Result<(), MacroError>)
        requires
            old(self).wf(),
            old(self).parse_index < old(self).tokens@.len(),
        ensures
            final(self).wf(),
            final(self).tokens == old(self).tokens,
            final(self).path == old(self).path,
            outcome(r, final(self).state(), ident_use(old(self).tokens@, old(self).state())),
    {
        let ghost ts = self.tokens@;
        let i = self.parse_index;
        let n = self.tokens.len();
        let name = self.tokens[i].text.clone();
        let j = skip_ws(&self.tokens, i + 1);
        if j < n && self.tokens[j].kind == Token::Assign {
            self.shadow(0, name);
            self.echo_to(j + 1);
            return Ok(());
        }
        match self.find_macro(&name) {
            Lookup::Found(m) => {
                let count = m.params.len();
                if count == 0 {
                    self.output.append(m.template.as_str());
                    push_texts(&mut self.output, &self.tokens, i + 1, j);
                    self.parse_index = j;
                    return Ok(());
                }
                if j >= n {
                    return Err(make_error(ErrorKind::UnexpectedEnd, j));
                }
                if self.tokens[j].kind != Token::LParen {
                    return Err(make_error(ErrorKind::Arity { expected: count, found: 0 }, i));
                }
                proof {
                    lemma_call_args_progress(ts, j + 1, 0, Seq::empty(), Seq::empty(), Seq::empty());
                }
                match parse_call_args(&self.tokens, j + 1) {
                    Err(e) => Err(e),
                    Ok((e, args)) => {
                        if args.len() != count {
                            return Err(
                                make_error(ErrorKind::Arity { expected: count, found: args.len() }, i),
                            );
                        }
                        push_texts(&mut self.output, &self.tokens, i + 1, j);
                        let text = m.expand(args.as_slice());
                        self.output.append(text.as_str());
                        self.parse_index = e;
                        Ok(())
                    },
                }
            },
            _ => {
                self.echo_to(j);
                Ok(())
            },
        }
    }

    /// One step of the expansion at the current position.
    fn step(&mut self) -> (r: Result<(), MacroError>)
        requires
            old(self).wf(),
            old(self).parse_index < old(self).tokens@.len(),
        ensures
            final(self).wf(),
            final(self).tokens == old(self).tokens,
            final(self).path == old(self).path,
            outcome(r, final(self).state(), step(old(self).tokens@, old(self).state())),
    {
        let i = self.parse_index;
        let n = self.tokens.len();
        let k = self.tokens[i].kind;
        match k {
            Token::FunctionKw => self.parse_function_args(true),
            Token::DoKw | Token::ThenKw | Token::RepeatKw => {
                self.enter_scope();
                self.echo_to(i + 1);
                Ok(())
            },
            Token::EndKw | Token::UntilKw => {
                if self.scope_stack.len() <= 1 {
                    return Err(make_error(ErrorKind::UnbalancedBlock, i));
                }
                self.exit_scope();
                self.echo_to(i + 1);
                Ok(())
            },
            Token::ElseKw | Token::ElseIfKw => {
                if self.scope_stack.len() <= 1 {
                    return Err(make_error(ErrorKind::UnbalancedBlock, i));
                }
                self.exit_scope();
                self.enter_scope();
                self.echo_to(i + 1);
                Ok(())
            },
            Token::MacroComment => self.parse_local_macro(),
            Token::AliasComment => self.parse_alias(),
            Token::LocalKw => self.parse_local(),
            Token::Ident => self.parse_ident(),
            _ => {
                self.echo_to(i + 1);
                Ok(())
            },
        }
    }

    /// Expands the whole file from its first token with the frames it holds,
    /// leaving the expanded text in `output`. The compile level and the
    /// level table take no part in the expansion.
    pub fn expand(&mut self, level: u8, level_map: &std::collections::HashMap<String, u8>) -> (r: Result<(), MacroError>)
        requires
            old(self).wf(),
        ensures
            final(self).wf(),
            final(self).tokens == old(self).tokens,
            final(self).path == old(self).path,
            outcome(
                r,
                final(self).state(),
                run(
                    old(self).tokens@,
                    ExpandState { pos: 0, out: Seq::empty(), ..old(self).state() },
                ),
            ),
    {
        self.parse_index = 0;
        self.output = String::new();
        let ghost start = self.state();
        while self.parse_index < self.tokens.len()
            invariant
                self.wf(),
                self.tokens == old(self).tokens,
                self.path == old(self).path,
                run(self.tokens@, self.state()) == run(self.tokens@, start),
                start == (ExpandState { pos: 0, out: Seq::empty(), ..old(self).state() }),
            decreases self.tokens@.len() - self.parse_index,
        {
            let ghost before = self.state();
            proof {
                lemma_step_progress(self.tokens@, before);
            }
            match self.step() {
                Ok(()) => {},
                Err(e) => {
                    return Err(e);
                },
            }
        }
        Ok(())
    }
}

/// Reads the arguments of a macro use from `i`, just after its `(`.
pub fn parse_call_args(ts: &Vec<TokenWithText>, i: usize) -> (r: Result<(usize, Vec<String>), MacroError>)
    requires
        i <= ts@.len(),
    ensures
        match (r, call_args(ts@, i as int, 0, Seq::empty(), Seq::empty(), Seq::empty())) {
            (Ok((e, a)), Ok((se, sa))) => e == se && strings_view(a@) == sa,
            (Err(e), Err(se)) => e == se,
            _ => false,
        },
{
    let mut depth: usize = 0;
    let mut cur = String::new();
    let mut pend = String::new();
    let mut args: Vec<String> = Vec::new();
    let mut p = i;
    assert(strings_view(args@) =~= Seq::<Seq<char>>::empty());
    while p < ts.len()
        invariant
            i <= p <= ts@.len(),
            depth <= p,
            call_args(ts@, p as int, depth as nat, cur@, pend@, strings_view(args@)) == call_args(
                ts@,
                i as int,
                0,
                Seq::empty(),
                Seq::empty(),
                Seq::empty(),
            ),
        decreases ts@.len() - p,
    {
        let kind = ts[p].kind;
        if kind == Token::RParen && depth == 0 {
            if !cur.as_str().is_empty() {
                let ghost before = strings_view(args@);
                args.push(cur);
                assert(strings_view(args@) =~= before.push(cur@));
            }
            return Ok((p + 1, args));
        } else if kind == Token::Comma && depth == 0 {
            let ghost before = strings_view(args@);
            let ghost cur_v = cur@;
            args.push(cur);
            assert(strings_view(args@) =~= before.push(cur_v));
            cur = String::new();
            pend = String::new();
        } else if kind == Token::Whitespace {
            if !cur.as_str().is_empty() {
                pend.append(ts[p].text.as_str());
            }
        } else {
            if kind == Token::LParen {
                depth = depth + 1;
            } else if kind == Token::RParen {
                depth = depth - 1;
            }
            cur.append(pend.as_str());
            cur.append(ts[p].text.as_str());
            pend = String::new();
        }
        p += 1;
    }
    Err(make_error(ErrorKind::UnclosedArguments, p))
}

} // verus!
