use vstd::prelude::*;
use crate::error::{fail, ErrorKind};
use crate::expansion::{
    call_args, function_decl, global_frame, global_table, globals_from, ident_use, local_decl,
    merge_all, pop_frame, run, step, ExpandState,
};
use crate::graph::DepGraph;
use crate::processor::{initial_state, Processor};
use crate::project::is_changed;
use crate::file::scopes_view;
use crate::macros::MacroDef;
use crate::scope::{innermost_def, lemma_innermost_def, resolve, shadowed_from};
use crate::token::{lemma_texts_split, lemma_ws_end, texts, ws_end, Token, TokenWithText};

verus! {

/// No directive comment among the tokens.
pub open spec fn directive_free(ts: Seq<TokenWithText>) -> bool {
    forall|i: int|
        0 <= i < ts.len() ==> (#[trigger] ts[i]).kind != Token::MacroComment && ts[i].kind
            != Token::AliasComment
}

/// Every macro frame is empty.
pub open spec fn no_macros(scopes: Seq<Map<Seq<char>, MacroDef>>) -> bool {
    forall|d: int| 0 <= d < scopes.len() ==> (#[trigger] scopes[d]) == Map::<Seq<char>, MacroDef>::empty()
}

proof fn lemma_step_echoes(ts: Seq<TokenWithText>, s: ExpandState)
    requires
        directive_free(ts),
        no_macros(s.scopes),
        0 <= s.pos < ts.len(),
    ensures
        step(ts, s) matches Ok(s2) ==> s2.out == s.out + texts(ts, s.pos, s2.pos) && no_macros(
            s2.scopes,
        ),
{
    let i = s.pos;
    let k = ts[i].kind;
    lemma_ws_end(ts, i + 1);
    if k == Token::LocalKw {
        let j = ws_end(ts, i + 1);
        if j < ts.len() && ts[j].kind == Token::FunctionKw {
            crate::expansion::lemma_function_decl_progress(ts, crate::expansion::echo(ts, s, j), false);
            if let Ok(s2) = local_decl(ts, s) {
                lemma_texts_split(ts, i, j, s2.pos);
                assert(s2.scopes =~= s.scopes.push(Map::empty()));
            }
        }
    } else if k == Token::Ident {
        let name = ts[i].text@;
        lemma_innermost_def(s.scopes, name, s.scopes.len() as int);
    } else if k == Token::FunctionKw {
        if let Ok(s2) = function_decl(ts, s, true) {
            assert(s2.scopes =~= s.scopes.push(Map::empty()));
        }
    } else {
    }
    if let Ok(s2) = step(ts, s) {
        assert forall|d: int| 0 <= d < s2.scopes.len() implies (#[trigger] s2.scopes[d])
            == Map::<Seq<char>, MacroDef>::empty() by {
            if d < s.scopes.len() && d < s2.scopes.len() - 1 {
                assert(s.scopes[d] == Map::<Seq<char>, MacroDef>::empty());
            }
        }
    }
}

proof fn lemma_run_echoes(ts: Seq<TokenWithText>, s: ExpandState)
    requires
        directive_free(ts),
        no_macros(s.scopes),
        0 <= s.pos <= ts.len(),
    ensures
        run(ts, s) matches Ok(s2) ==> s2.out == s.out + texts(ts, s.pos, ts.len() as int),
    decreases ts.len() - s.pos,
{
    if s.pos < ts.len() {
        crate::expansion::lemma_step_progress(ts, s);
        lemma_step_echoes(ts, s);
        if let Ok(s2) = step(ts, s) {
            lemma_run_echoes(ts, s2);
            lemma_texts_split(ts, s.pos, s2.pos, ts.len() as int);
            assert(s.out + texts(ts, s.pos, s2.pos) + texts(ts, s2.pos, ts.len() as int) =~= s.out
                + texts(ts, s.pos, ts.len() as int));
        }
    } else {
        assert(s.out + texts(ts, s.pos, ts.len() as int) =~= s.out);
    }
}

proof fn lemma_globals_without_directives(ts: Seq<TokenWithText>, i: int, table: Map<Seq<char>, MacroDef>)
    requires
        directive_free(ts),
        0 <= i,
    ensures
        globals_from(ts, i, table) == Ok::<_, crate::error::MacroError>(table),
    decreases ts.len() - i,
{
    if i < ts.len() {
        lemma_globals_without_directives(ts, i + 1, table);
    }
}

proof fn lemma_merge_empty(ms: Seq<Map<Seq<char>, MacroDef>>)
    requires
        forall|k: int| 0 <= k < ms.len() ==> (#[trigger] ms[k]) == Map::<Seq<char>, MacroDef>::empty(),
    ensures
        merge_all(ms) == Map::<Seq<char>, MacroDef>::empty(),
    decreases ms.len(),
{
    if ms.len() > 0 {
        lemma_merge_empty(ms.drop_last());
        assert(merge_all(ms) =~= Map::<Seq<char>, MacroDef>::empty());
    }
}

/// Text without directive comments comes out of the pipeline unchanged: such
/// a file exports no macros, and when none of the files it requires exports
/// any either, its expansion, if it succeeds, is its own text, token for
/// token. Running the pipeline again on its output therefore gives the same
/// output.
pub proof fn law_directive_free_text_is_kept(
    ts: Seq<TokenWithText>,
    deps: Seq<usize>,
    tables: Seq<Map<Seq<char>, MacroDef>>,
)
    requires
        directive_free(ts),
        forall|k: int| 0 <= k < deps.len() ==> #[trigger] deps[k] < tables.len(),
        forall|k: int| 0 <= k < tables.len() ==> (#[trigger] tables[k]) == Map::<Seq<char>, MacroDef>::empty(),
    ensures
        global_table(ts) == Ok::<_, crate::error::MacroError>(Map::<Seq<char>, MacroDef>::empty()),
        ({
            let s = ExpandState {
                pos: 0,
                out: Seq::empty(),
                scopes: seq![global_frame(deps, tables, Map::empty())],
                shadows: seq![Set::empty()],
            };
            run(ts, s) matches Ok(s2) ==> s2.out == texts(ts, 0, ts.len() as int)
        }),
{
    lemma_globals_without_directives(ts, 0, Map::empty());
    let ms = deps.map_values(|d: usize| tables[d as int]);
    assert forall|k: int| 0 <= k < ms.len() implies (#[trigger] ms[k]) == Map::<Seq<char>, MacroDef>::empty() by {
        assert(deps[k] < tables.len());
    }
    lemma_merge_empty(ms);
    assert(global_frame(deps, tables, Map::empty()) =~= Map::<Seq<char>, MacroDef>::empty());
    let s = ExpandState {
        pos: 0,
        out: Seq::empty(),
        scopes: seq![global_frame(deps, tables, Map::empty())],
        shadows: seq![Set::empty()],
    };
    assert(no_macros(s.scopes));
    lemma_run_echoes(ts, s);
    assert(Seq::<char>::empty() + texts(ts, 0, ts.len() as int) =~= texts(ts, 0, ts.len() as int));
}

proof fn lemma_merge_all_has(ms: Seq<Map<Seq<char>, MacroDef>>, name: Seq<char>, b: int)
    requires
        0 <= b < ms.len(),
        ms[b].contains_key(name),
    ensures
        merge_all(ms).contains_key(name),
        (forall|k: int| 0 <= k < ms.len() && #[trigger] ms[k].contains_key(name) ==> ms[k][name] == ms[b][name])
            ==> merge_all(ms)[name] == ms[b][name],
    decreases ms.len(),
{
    if b < ms.len() - 1 {
        lemma_merge_all_has(ms.drop_last(), name, b);
    }
}

/// A global macro that a required file exports is resolvable in the global
/// frame of the file that requires it; unless that file defines the name
/// itself, or another required file exports another definition of it, it
/// stands for the exported definition.
pub proof fn law_export_reaches_requirer(
    deps: Seq<usize>,
    tables: Seq<Map<Seq<char>, MacroDef>>,
    own: Map<Seq<char>, MacroDef>,
    b: int,
    name: Seq<char>,
)
    requires
        0 <= b < deps.len(),
        forall|k: int| 0 <= k < deps.len() ==> #[trigger] deps[k] < tables.len(),
        tables[deps[b] as int].contains_key(name),
    ensures
        resolve(seq![global_frame(deps, tables, own)], seq![Set::empty()], name) is Some,
        !own.contains_key(name) && (forall|k: int|
            0 <= k < deps.len() && #[trigger] tables[deps[k] as int].contains_key(name)
                ==> tables[deps[k] as int][name] == tables[deps[b] as int][name])
            ==> resolve(seq![global_frame(deps, tables, own)], seq![Set::empty()], name) == Some(
            tables[deps[b] as int][name],
        ),
{
    let ms = deps.map_values(|d: usize| tables[d as int]);
    assert(ms[b] == tables[deps[b] as int]);
    lemma_merge_all_has(ms, name, b);
    if forall|k: int|
        0 <= k < deps.len() && #[trigger] tables[deps[k] as int].contains_key(name)
            ==> tables[deps[k] as int][name] == tables[deps[b] as int][name] {
        assert forall|k: int| 0 <= k < ms.len() && #[trigger] ms[k].contains_key(name) implies ms[k][name]
            == ms[b][name] by {
            assert(ms[k] == tables[deps[k] as int]);
        }
    }
    let frames = seq![global_frame(deps, tables, own)];
    let shadows = seq![Set::<Seq<char>>::empty()];
    assert(innermost_def(frames, name, 1) == 0);
    assert(!shadowed_from(shadows, name, 0));
}

/// When file `a` of a processor requires file `b` and `b` exports a macro,
/// the name of that macro is resolvable in the state in which the expansion
/// of `a` starts.
pub proof fn law_required_file_export_visible(p: Processor, a: int, b: usize, name: Seq<char>)
    requires
        p.wf(),
        0 <= a < p.files@.len(),
        p.require_relations@[a]@.contains(b),
        p.global_macro_map@[b as int]@.contains_key(name),
    ensures
        ({
            let s = initial_state(
                p.require_relations@[a]@,
                scopes_view(p.global_macro_map@),
                p.global_macro_map@[a]@,
            );
            resolve(s.scopes, s.shadows, name) is Some
        }),
{
    let deps = p.require_relations@[a]@;
    let tables = scopes_view(p.global_macro_map@);
    let k = choose|k: int| 0 <= k < deps.len() && deps[k] == b;
    assert forall|q: int| 0 <= q < deps.len() implies #[trigger] deps[q] < tables.len() by {
        assert(p.require_relations@[a]@[q] < p.files@.len());
    }
    assert(tables[deps[k] as int] == p.global_macro_map@[b as int]@);
    law_export_reaches_requirer(deps, tables, p.global_macro_map@[a]@, k, name);
}

/// A binding hides a macro of the same name: when a shadow frame holds the
/// name and no frame above it defines a macro of that name, the name
/// resolves to no macro.
pub proof fn law_binding_hides_macro(
    scopes: Seq<Map<Seq<char>, MacroDef>>,
    shadows: Seq<Set<Seq<char>>>,
    name: Seq<char>,
    k: int,
)
    requires
        scopes.len() == shadows.len(),
        0 <= k < shadows.len(),
        shadows[k].contains(name),
        forall|j: int| k < j < scopes.len() ==> !(#[trigger] scopes[j]).contains_key(name),
    ensures
        resolve(scopes, shadows, name) is None,
{
    lemma_innermost_def(scopes, name, scopes.len() as int);
    let d = innermost_def(scopes, name, scopes.len() as int);
    if d >= 0 {
        assert(d <= k);
        assert(shadows[k].contains(name));
    }
}

/// Without any binding of the name, a name resolves to its innermost definition.
pub proof fn law_unbound_name_expands(
    scopes: Seq<Map<Seq<char>, MacroDef>>,
    shadows: Seq<Set<Seq<char>>>,
    name: Seq<char>,
    d: int,
)
    requires
        scopes.len() == shadows.len(),
        0 <= d < scopes.len(),
        scopes[d].contains_key(name),
        forall|j: int| d < j < scopes.len() ==> !(#[trigger] scopes[j]).contains_key(name),
        forall|j: int| 0 <= j < shadows.len() ==> !(#[trigger] shadows[j]).contains(name),
    ensures
        resolve(scopes, shadows, name) == Some(scopes[d][name]),
{
    lemma_innermost_def(scopes, name, scopes.len() as int);
    let e = innermost_def(scopes, name, scopes.len() as int);
    assert(e == d);
}

/// `local M` inside a block hides every macro `M` until the block ends: right
/// after the declaration `M` resolves to no macro, and once the block's frame
/// is closed `M` resolves as it did outside the block.
pub proof fn law_local_shadows_until_block_end(ts: Seq<TokenWithText>, s: ExpandState, name: Seq<char>)
    requires
        s.scopes.len() == s.shadows.len(),
        s.scopes.len() >= 2,
        0 <= s.pos < ts.len(),
        ts[s.pos].kind == Token::LocalKw,
        ws_end(ts, s.pos + 1) < ts.len(),
        ts[ws_end(ts, s.pos + 1)].kind == Token::Ident,
        ts[ws_end(ts, s.pos + 1)].text@ == name,
    ensures
        local_decl(ts, s) is Ok,
        resolve(local_decl(ts, s)->Ok_0.scopes, local_decl(ts, s)->Ok_0.shadows, name) is None,
        resolve(
            pop_frame(local_decl(ts, s)->Ok_0).scopes,
            pop_frame(local_decl(ts, s)->Ok_0).shadows,
            name,
        ) == resolve(s.scopes.drop_last(), s.shadows.drop_last(), name),
{
    let s2 = local_decl(ts, s)->Ok_0;
    let top = s.shadows.len() - 1;
    assert(s2.shadows[top].contains(name));
    law_binding_hides_macro(s2.scopes, s2.shadows, name, top);
    assert(pop_frame(s2).scopes =~= s.scopes.drop_last());
    assert(pop_frame(s2).shadows =~= s.shadows.drop_last());
}

/// A use of a macro with parameters whose argument list holds another number
/// of arguments stops the expansion with an arity error at the macro's name.
pub proof fn law_arity_mismatch_aborts(ts: Seq<TokenWithText>, s: ExpandState, m: MacroDef, e: int, args: Seq<Seq<char>>)
    requires
        0 <= s.pos < ts.len(),
        ts[s.pos].kind == Token::Ident,
        ws_end(ts, s.pos + 1) < ts.len(),
        ts[ws_end(ts, s.pos + 1)].kind == Token::LParen,
        resolve(s.scopes, s.shadows, ts[s.pos].text@) == Some(m),
        m.params.len() > 0,
        call_args(ts, ws_end(ts, s.pos + 1) + 1, 0, Seq::empty(), Seq::empty(), Seq::empty()) == Ok::<
            _,
            crate::error::MacroError,
        >((e, args)),
        args.len() != m.params.len(),
    ensures
        run(ts, s) == Err::<ExpandState, _>(
            fail(ErrorKind::Arity { expected: m.params.len() as usize, found: args.len() as usize }, s.pos),
        ),
{
    assert(ident_use(ts, s) == Err::<ExpandState, _>(
        fail(ErrorKind::Arity { expected: m.params.len() as usize, found: args.len() as usize }, s.pos),
    ));
}

proof fn lemma_walk_stays(g: DepGraph, changed: Seq<usize>, inside: Set<usize>, p: Seq<usize>, k: int)
    requires
        forall|c: int| 0 <= c < changed.len() ==> inside.contains(changed[c]),
        forall|v: usize, w: usize| inside.contains(v) && #[trigger] g.linked(v, w) ==> inside.contains(w),
        p.len() > 0,
        changed.contains(p[0]),
        g.is_walk(p),
        0 <= k < p.len(),
    ensures
        inside.contains(p[k]),
    decreases k,
{
    if k > 0 {
        lemma_walk_stays(g, changed, inside, p, k - 1);
        assert(g.linked(p[k - 1], p[(k - 1) + 1]));
    }
}

/// After a full run every file's cached modification time is current; when
/// only file `c` is touched afterwards, `c` is the only changed file.
pub proof fn law_only_touched_file_changes(
    paths: Seq<Seq<char>>,
    mtimes: Seq<u64>,
    cache: Map<Seq<char>, (u64, Seq<Seq<char>>)>,
    c: int,
)
    requires
        paths.len() == mtimes.len(),
        0 <= c < paths.len(),
        forall|i: int| 0 <= i < paths.len() ==> cache.contains_key(#[trigger] paths[i]),
        forall|i: int| 0 <= i < paths.len() && i != c ==> cache[#[trigger] paths[i]].0 == mtimes[i],
        cache[paths[c]].0 != mtimes[c],
    ensures
        forall|i: int| 0 <= i < paths.len() ==> (is_changed(cache, #[trigger] paths[i], mtimes[i]) <==> i == c),
{
}

/// The affected set of a change holds the changed files and everything linked
/// to a file it holds, through a require in either direction; a file outside
/// some set that holds the changed files and is closed under such links (a
/// file with no path to them) is not affected.
pub proof fn law_affected_closure(g: DepGraph, changed: Seq<usize>, inside: Set<usize>, d: usize)
    ensures
        forall|k: int| 0 <= k < changed.len() ==> g.affected(changed, #[trigger] changed[k]),
        forall|v: usize, w: usize| g.affected(changed, v) && #[trigger] g.linked(v, w) ==> g.affected(changed, w),
        (forall|c: int| 0 <= c < changed.len() ==> inside.contains(changed[c])) && (forall|v: usize, w: usize|
            inside.contains(v) && #[trigger] g.linked(v, w) ==> inside.contains(w)) && !inside.contains(d)
            ==> !g.affected(changed, d),
{
    assert forall|k: int| 0 <= k < changed.len() implies g.affected(changed, #[trigger] changed[k]) by {
        let p = seq![changed[k]];
        assert(changed.contains(p[0]));
        assert(g.is_walk(p));
    }
    assert forall|v: usize, w: usize| g.affected(changed, v) && #[trigger] g.linked(v, w) implies g.affected(
        changed,
        w,
    ) by {
        crate::graph::lemma_extend_walk(g, changed, v, w);
    }
    if (forall|c: int| 0 <= c < changed.len() ==> inside.contains(changed[c])) && (forall|v: usize, w: usize|
        inside.contains(v) && #[trigger] g.linked(v, w) ==> inside.contains(w)) && !inside.contains(d) {
        if g.affected(changed, d) {
            let p = choose|p: Seq<usize>|
                #![trigger g.is_walk(p)]
                p.len() > 0 && changed.contains(p[0]) && p.last() == d && g.is_walk(p);
            lemma_walk_stays(g, changed, inside, p, p.len() - 1);
        }
    }
}

} // verus!
