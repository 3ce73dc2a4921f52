use vstd::prelude::*;
use vstd::string::*;
use crate::graph::DepGraph;
use crate::text::{find_name, first_index, lemma_first_index, strings_view};
use crate::scope::{entries_map, find_entry, lemma_entries_tail};
use crate::token::{Token, TokenWithText};

verus! {

/// What the cache keeps of a file: its modification time in whole seconds
/// and the paths of the files it requires.
#[derive(Clone, Debug)]
pub struct FileCache {
    pub mtime: u64,
    pub deps: Vec<String>,
}

impl View for FileCache {
    type V = (u64, Seq<Seq<char>>);

    open spec fn view(&self) -> (u64, Seq<Seq<char>>) {
        (self.mtime, strings_view(self.deps@))
    }
}

/// The persisted build cache: path to `FileCache`. A later entry for a path
/// overrides an earlier one.
#[derive(Clone, Debug)]
pub struct BuildCache {
    pub files: Vec<(String, FileCache)>,
}

impl View for BuildCache {
    type V = Map<Seq<char>, (u64, Seq<Seq<char>>)>;

    open spec fn view(&self) -> Map<Seq<char>, (u64, Seq<Seq<char>>)> {
        entries_map(self.files@)
    }
}

impl BuildCache {
    pub fn new() -> (r: BuildCache)
        ensures
            r@ == Map::<Seq<char>, (u64, Seq<Seq<char>>)>::empty(),
    {
        let r = BuildCache { files: Vec::new() };
        assert(r@ =~= Map::<Seq<char>, (u64, Seq<Seq<char>>)>::empty());
        r
    }

    pub fn get(&self, path: &String) -> (r: Option<&FileCache>)
        ensures
            r is Some <==> self@.contains_key(path@),
            r is Some ==> r->0@ == self@[path@],
    {
        find_entry(&self.files, path)
    }

    /// Records the modification time and the requires of a file.
    pub fn update_cache(&mut self, file: String, mtime: u64, deps: Vec<String>)
        ensures
            final(self)@ == old(self)@.insert(file@, (mtime, strings_view(deps@))),
    {
        let ghost s = self.files@;
        self.files.push((file, FileCache { mtime, deps }));
        assert(self.files@.drop_last() =~= s);
    }
}

/// A file must be processed again when the cache does not know it or holds
/// another modification time for it.
pub open spec fn is_changed(cache: Map<Seq<char>, (u64, Seq<Seq<char>>)>, path: Seq<char>, mtime: u64) -> bool {
    !cache.contains_key(path) || cache[path].0 != mtime
}

/// The indices of the files that changed since the cache was written, in
/// increasing order; `mtimes[i]` is the current modification time of `all_files[i]`.
pub fn find_changed_files(all_files: &Vec<String>, mtimes: &Vec<u64>, cache: &BuildCache) -> (r: Vec<usize>)
    requires
        mtimes@.len() == all_files@.len(),
    ensures
        forall|k: int|
            0 <= k < r@.len() ==> r@[k] < all_files@.len() && is_changed(
                cache@,
                all_files@[r@[k] as int]@,
                mtimes@[r@[k] as int],
            ),
        forall|k: int, l: int| 0 <= k < l < r@.len() ==> r@[k] < r@[l],
        forall|i: int|
            0 <= i < all_files@.len() && is_changed(cache@, all_files@[i]@, mtimes@[i])
                ==> r@.contains(i as usize),
{
    let mut changed: Vec<usize> = Vec::new();
    let mut i: usize = 0;
    while i < all_files.len()
        invariant
            i <= all_files@.len(),
            mtimes@.len() == all_files@.len(),
            forall|k: int|
                0 <= k < changed@.len() ==> changed@[k] < i && is_changed(
                    cache@,
                    all_files@[changed@[k] as int]@,
                    mtimes@[changed@[k] as int],
                ),
            forall|k: int, l: int| 0 <= k < l < changed@.len() ==> changed@[k] < changed@[l],
            forall|q: int|
                0 <= q < i && is_changed(cache@, all_files@[q]@, mtimes@[q]) ==> changed@.contains(
                    q as usize,
                ),
        decreases all_files@.len() - i,
    {
        let stale = match cache.get(&all_files[i]) {
            Some(fc) => fc.mtime != mtimes[i],
            None => true,
        };
        if stale {
            let ghost before = changed@;
            changed.push(i);
            assert forall|q: int|
                0 <= q <= i && is_changed(cache@, all_files@[q]@, mtimes@[q]) implies changed@.contains(
                q as usize,
            ) by {
                if q < i {
                    let w = choose|w: int| 0 <= w < before.len() && before[w] == q as usize;
                    assert(changed@[w] == q as usize);
                } else {
                    assert(changed@[before.len() as int] == q as usize);
                }
            }
        }
        i += 1;
    }
    changed
}

/// A string literal with its quotes (both `"` or both `'`) taken off.
pub open spec fn unquoted(s: Seq<char>) -> Seq<char> {
    if s.len() >= 2 && ((s[0] == '"' && s.last() == '"') || (s[0] == '\'' && s.last() == '\'')) {
        s.subrange(1, s.len() - 1)
    } else {
        s
    }
}

/// Takes off the quotes that enclose a string literal.
pub fn strip_quotes(s: &str) -> (r: &str)
    ensures
        r@ == unquoted(s@),
{
    let n = s.unicode_len();
    if n >= 2 {
        let first = s.get_char(0);
        let last = s.get_char(n - 1);
        if (first == '"' && last == '"') || (first == '\'' && last == '\'') {
            return s.substring_char(1, n - 1);
        }
    }
    proof {
        assert(s@.subrange(0, s@.len() as int) =~= s@);
    }
    s
}

/// The module names that the file requires, in order, from `i` on. State
/// `st`: 0 outside a require, 1 just after the `require` keyword, 2 inside
/// its parentheses. A string literal right after the keyword or inside the
/// parentheses is a module name; any other argument ends the require.
pub open spec fn required_from(ts: Seq<TokenWithText>, i: int, st: int, acc: Seq<Seq<char>>) -> Seq<Seq<char>>
    decreases ts.len() - i,
{
    if !(0 <= i < ts.len()) {
        acc
    } else {
        let k = ts[i].kind;
        if k == Token::Require {
            required_from(ts, i + 1, 1, acc)
        } else if st == 0 || k == Token::Whitespace {
            required_from(ts, i + 1, st, acc)
        } else if k == Token::String {
            required_from(ts, i + 1, if st == 1 { 0 } else { 2 }, acc.push(unquoted(ts[i].text@)))
        } else if k == Token::LParen {
            required_from(ts, i + 1, 2, acc)
        } else {
            required_from(ts, i + 1, 0, acc)
        }
    }
}

/// The names of the modules that the tokens require with a literal string.
pub fn get_required_modules(tokens_with_text: &Vec<TokenWithText>) -> (r: Vec<String>)
    ensures
        strings_view(r@) == required_from(tokens_with_text@, 0, 0, Seq::empty()),
{
    let ts = tokens_with_text;
    let mut found: Vec<String> = Vec::new();
    let mut st: u8 = 0;
    let mut i: usize = 0;
    assert(strings_view(found@) =~= Seq::<Seq<char>>::empty());
    while i < ts.len()
        invariant
            i <= ts@.len(),
            st <= 2,
            required_from(ts@, i as int, st as int, strings_view(found@)) == required_from(
                ts@,
                0,
                0,
                Seq::empty(),
            ),
        decreases ts@.len() - i,
    {
        let k = ts[i].kind;
        if k == Token::Require {
            st = 1;
        } else if st == 0 || k == Token::Whitespace {
        } else if k == Token::String {
            let name = strip_quotes(ts[i].text.as_str());
            let ghost before = strings_view(found@);
            found.push(String::from_str(name));
            assert(strings_view(found@) =~= before.push(unquoted(ts@[i as int].text@)));
            st = if st == 1 {
                0
            } else {
                2
            };
        } else if k == Token::LParen {
            st = 2;
        } else {
            st = 0;
        }
        i += 1;
    }
    found
}

/// A dotted module name as a relative path: each `.` becomes `/`.
pub open spec fn dotted_path(req: Seq<char>) -> Seq<char>
    decreases req.len(),
{
    if req.len() == 0 {
        Seq::empty()
    } else {
        dotted_path(req.drop_last()) + seq![if req.last() == '.' { '/' } else { req.last() }]
    }
}

/// A search template with each `?` replaced by the module path.
pub open spec fn fill_template(t: Seq<char>, m: Seq<char>) -> Seq<char>
    decreases t.len(),
{
    if t.len() == 0 {
        Seq::empty()
    } else {
        fill_template(t.drop_last(), m) + if t.last() == '?' { m } else { seq![t.last()] }
    }
}

/// A directory prefix joined with a relative path.
pub open spec fn join_path(prefix: Seq<char>, m: Seq<char>) -> Seq<char> {
    if prefix.len() == 0 {
        m
    } else if prefix.last() == '/' {
        prefix + m
    } else {
        prefix + seq!['/'] + m
    }
}

/// Where a search path looks for a module: the template filled in when it
/// holds a `?`, else the module path under the prefix.
pub open spec fn candidate(search_path: Seq<char>, m: Seq<char>) -> Seq<char> {
    if search_path.contains('?') {
        fill_template(search_path, m)
    } else {
        join_path(search_path, m)
    }
}

fn dotted_to_path(req: &str) -> (r: String)
    ensures
        r@ == dotted_path(req@),
{
    let n = req.unicode_len();
    let mut out = String::new();
    let mut i: usize = 0;
    proof {
        reveal_strlit("/");
    }
    while i < n
        invariant
            n == req@.len(),
            i <= n,
            out@ == dotted_path(req@.take(i as int)),
            "/"@ == seq!['/'],
        decreases n - i,
    {
        let c = req.get_char(i);
        if c == '.' {
            out.append("/");
        } else {
            out.append(req.substring_char(i, i + 1));
        }
        assert(req@.take(i + 1).drop_last() =~= req@.take(i as int));
        i += 1;
    }
    assert(req@.take(n as int) =~= req@);
    out
}

fn has_placeholder(s: &str) -> (r: bool)
    ensures
        r == s@.contains('?'),
{
    let n = s.unicode_len();
    let mut i: usize = 0;
    while i < n
        invariant
            n == s@.len(),
            i <= n,
            forall|k: int| 0 <= k < i ==> s@[k] != '?',
        decreases n - i,
    {
        if s.get_char(i) == '?' {
            return true;
        }
        i += 1;
    }
    false
}

fn search_candidate(search_path: &str, m: &str) -> (r: String)
    ensures
        r@ == candidate(search_path@, m@),
{
    let n = search_path.unicode_len();
    proof {
        reveal_strlit("/");
    }
    if has_placeholder(search_path) {
        let mut out = String::new();
        let mut i: usize = 0;
        while i < n
            invariant
                n == search_path@.len(),
                i <= n,
                out@ == fill_template(search_path@.take(i as int), m@),
            decreases n - i,
        {
            if search_path.get_char(i) == '?' {
                out.append(m);
            } else {
                out.append(search_path.substring_char(i, i + 1));
            }
            assert(search_path@.take(i + 1).drop_last() =~= search_path@.take(i as int));
            i += 1;
        }
        assert(search_path@.take(n as int) =~= search_path@);
        out
    } else if n == 0 {
        String::from_str(m)
    } else {
        let mut out = String::from_str(search_path);
        if search_path.get_char(n - 1) != '/' {
            out.append("/");
        }
        out.append(m);
        out
    }
}

/// The places where a required module is looked for, one for each search
/// path and in their order; each is tried with and without the source file
/// extension, relative to the project root.
pub fn require_candidates(req: &str, search_paths: &Vec<String>) -> (r: Vec<String>)
    ensures
        r@.len() == search_paths@.len(),
        forall|k: int|
            0 <= k < r@.len() ==> (#[trigger] r@[k])@ == candidate(search_paths@[k]@, dotted_path(req@)),
{
    let m = dotted_to_path(req);
    let mut out: Vec<String> = Vec::new();
    let mut k: usize = 0;
    while k < search_paths.len()
        invariant
            k <= search_paths@.len(),
            m@ == dotted_path(req@),
            out@.len() == k,
            forall|q: int|
                0 <= q < k ==> (#[trigger] out@[q])@ == candidate(search_paths@[q]@, dotted_path(req@)),
        decreases search_paths@.len() - k,
    {
        out.push(search_candidate(search_paths[k].as_str(), m.as_str()));
        k += 1;
    }
    out
}

/// The indices in `paths` of the dependencies that are known files, in order.
pub open spec fn known_ids(paths: Seq<Seq<char>>, deps: Seq<Seq<char>>) -> Seq<usize>
    decreases deps.len(),
{
    if deps.len() == 0 {
        Seq::empty()
    } else {
        let rest = known_ids(paths, deps.drop_last());
        let k = first_index(paths, deps.last(), 0);
        if k >= 0 {
            rest.push(k as usize)
        } else {
            rest
        }
    }
}

/// The requires of file `i` as the cache recorded them.
pub open spec fn cached_ids(paths: Seq<Seq<char>>, cache: Map<Seq<char>, (u64, Seq<Seq<char>>)>, i: int) -> Seq<usize> {
    if cache.contains_key(paths[i]) {
        known_ids(paths, cache[paths[i]].1)
    } else {
        Seq::empty()
    }
}

/// Adds to the graph the requires that the cache recorded for every file
/// `i` of `paths` with `skip[i]` false; a dependency that is not a file of
/// `paths` is left out.
pub fn restore_from_cache(graph: &mut DepGraph, paths: &Vec<String>, cache: &BuildCache, skip: &Vec<bool>)
    requires
        old(graph).wf(),
        old(graph).size() == paths@.len(),
        skip@.len() == paths@.len(),
    ensures
        final(graph).wf(),
        final(graph).size() == paths@.len(),
        forall|i: int|
            0 <= i < paths@.len() ==> (#[trigger] final(graph).require_relations@[i])@ == old(
                graph,
            ).require_relations@[i]@ + if skip@[i] {
                Seq::empty()
            } else {
                cached_ids(strings_view(paths@), cache@, i)
            },
{
    let ghost ps = strings_view(paths@);
    let n = paths.len();
    let mut i: usize = 0;
    while i < n
        invariant
            n == paths@.len(),
            ps == strings_view(paths@),
            skip@.len() == n,
            i <= n,
            graph.wf(),
            graph.size() == n,
            forall|q: int|
                0 <= q < n ==> (#[trigger] graph.require_relations@[q])@ == old(graph).require_relations@[q]@
                    + if q >= i || skip@[q] {
                    Seq::empty()
                } else {
                    cached_ids(ps, cache@, q)
                },
        decreases n - i,
    {
        if !skip[i] {
            match cache.get(&paths[i]) {
                Some(fc) => {
                    let ghost start = graph.require_relations@[i as int]@;
                    let ghost deps = strings_view(fc.deps@);
                    let mut k: usize = 0;
                    while k < fc.deps.len()
                        invariant
                            n == paths@.len(),
                            ps == strings_view(paths@),
                            i < n,
                            k <= fc.deps@.len(),
                            deps == strings_view(fc.deps@),
                            graph.wf(),
                            graph.size() == n,
                            graph.require_relations@[i as int]@ == start + known_ids(ps, deps.take(k as int)),
                            forall|q: int|
                                0 <= q < n && q != i ==> (#[trigger] graph.require_relations@[q])@ == old(
                                    graph,
                                ).require_relations@[q]@ + if q >= i || skip@[q] {
                                    Seq::empty()
                                } else {
                                    cached_ids(ps, cache@, q)
                                },
                        decreases fc.deps@.len() - k,
                    {
                        let d = find_name(paths, &fc.deps[k]);
                        proof {
                            lemma_first_index(ps, deps[k as int], 0);
                            assert(deps.take(k + 1).drop_last() =~= deps.take(k as int));
                        }
                        if d < n {
                            graph.add_edge(i, d);
                        }
                        proof {
                            assert(graph.require_relations@[i as int]@ =~= start + known_ids(ps, deps.take(k + 1)));
                        }
                        k += 1;
                    }
                    proof {
                        assert(deps.take(k as int) =~= deps);
                    }
                },
                None => {
                    assert(graph.require_relations@[i as int]@ =~= graph.require_relations@[i as int]@ + Seq::<usize>::empty());
                },
            }
        }
        proof {
            assert forall|q: int| 0 <= q < n implies (#[trigger] graph.require_relations@[q])@ == old(graph).require_relations@[q]@
                + if q >= i + 1 || skip@[q] { Seq::empty() } else { cached_ids(ps, cache@, q) } by {
                if q == i && skip@[q] {
                    assert(old(graph).require_relations@[q]@ + Seq::<usize>::empty() =~= old(graph).require_relations@[q]@);
                }
            }
        }
        i += 1;
    }
}

} // verus!
