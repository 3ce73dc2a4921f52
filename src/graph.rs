use vstd::prelude::*;

verus! {

/// The require graph over file indices: `require_relations[a]` lists the
/// files that `a` requires, `reverse_require[b]` the files that require `b`.
pub struct DepGraph {
    pub require_relations: Vec<Vec<usize>>,
    pub reverse_require: Vec<Vec<usize>>,
}

impl DepGraph {
    /// The number of files.
    pub open spec fn size(&self) -> nat {
        self.require_relations@.len()
    }

    /// `a` requires `b`.
    pub open spec fn requires_file(&self, a: usize, b: usize) -> bool {
        a < self.size() && self.require_relations@[a as int]@.contains(b)
    }

    /// Both lists cover every file, name files only, and are converse to each other.
    pub open spec fn wf(&self) -> bool {
        &&& self.reverse_require@.len() == self.size()
        &&& forall|a: int, k: int|
            0 <= a < self.size() && 0 <= k < self.require_relations@[a]@.len()
                ==> #[trigger] self.require_relations@[a]@[k] < self.size()
        &&& forall|a: int, k: int|
            0 <= a < self.size() && 0 <= k < self.reverse_require@[a]@.len()
                ==> #[trigger] self.reverse_require@[a]@[k] < self.size()
        &&& forall|a: usize, b: usize|
            a < self.size() && b < self.size() ==> (#[trigger] self.require_relations@[a as int]@.contains(b)
                <==> #[trigger] self.reverse_require@[b as int]@.contains(a))
    }

    /// `a` and `b` are joined by a require, in either direction.
    pub open spec fn linked(&self, a: usize, b: usize) -> bool {
        self.requires_file(a, b) || self.requires_file(b, a)
    }

    /// Each file of `p` is linked to the next.
    pub open spec fn is_walk(&self, p: Seq<usize>) -> bool {
        forall|k: int| 0 <= k < p.len() - 1 ==> #[trigger] self.linked(p[k], p[k + 1])
    }

    /// `v` is reached from a changed file through requires and dependents.
    pub open spec fn affected(&self, changed: Seq<usize>, v: usize) -> bool {
        exists|p: Seq<usize>|
            #![trigger self.is_walk(p)]
            p.len() > 0 && changed.contains(p[0]) && p.last() == v && self.is_walk(p)
    }

    /// A graph of `n` files with no requires.
    pub fn new(n: usize) -> (r: DepGraph)
        ensures
            r.wf(),
            r.size() == n,
            forall|a: int| 0 <= a < n ==> (#[trigger] r.require_relations@[a])@.len() == 0,
    {
        let mut require_relations: Vec<Vec<usize>> = Vec::new();
        let mut reverse_require: Vec<Vec<usize>> = Vec::new();
        let mut i: usize = 0;
        while i < n
            invariant
                i <= n,
                require_relations@.len() == i,
                reverse_require@.len() == i,
                forall|a: int| 0 <= a < i ==> (#[trigger] require_relations@[a])@.len() == 0,
                forall|a: int| 0 <= a < i ==> (#[trigger] reverse_require@[a])@.len() == 0,
            decreases n - i,
        {
            require_relations.push(Vec::new());
            reverse_require.push(Vec::new());
            i += 1;
        }
        DepGraph { require_relations, reverse_require }
    }

    /// Records that file `from` requires file `to`.
    pub fn add_edge(&mut self, from: usize, to: usize)
        requires
            old(self).wf(),
            from < old(self).size(),
            to < old(self).size(),
        ensures
            final(self).wf(),
            final(self).size() == old(self).size(),
            final(self).require_relations@[from as int]@ == old(self).require_relations@[from as int]@.push(to),
            forall|a: int| 0 <= a < old(self).size() && a != from ==> (#[trigger] final(self).require_relations@[a])@ == old(self).require_relations@[a]@,
            final(self).reverse_require@[to as int]@ == old(self).reverse_require@[to as int]@.push(from),
            forall|b: int| 0 <= b < old(self).size() && b != to ==> (#[trigger] final(self).reverse_require@[b])@ == old(self).reverse_require@[b]@,
    {
        let ghost f0 = self.require_relations@;
        let ghost r0 = self.reverse_require@;
        self.require_relations[from].push(to);
        self.reverse_require[to].push(from);
        assert forall|a: usize, b: usize|
            a < self.size() && b < self.size() implies (#[trigger] self.require_relations@[a as int]@.contains(b)
                <==> #[trigger] self.reverse_require@[b as int]@.contains(a)) by {
            let fa = self.require_relations@[a as int]@;
            let rb = self.reverse_require@[b as int]@;
            if a == from && b == to {
                assert(fa[f0[a as int]@.len() as int] == b);
                assert(rb[r0[b as int]@.len() as int] == a);
            } else {
                if fa.contains(b) {
                    let k = choose|k: int| 0 <= k < fa.len() && fa[k] == b;
                    assert(f0[a as int]@[k] == b);
                    assert(f0[a as int]@.contains(b));
                    assert(r0[b as int]@.contains(a));
                    let q = choose|q: int| 0 <= q < r0[b as int]@.len() && r0[b as int]@[q] == a;
                    assert(rb[q] == a);
                }
                if rb.contains(a) {
                    let k = choose|k: int| 0 <= k < rb.len() && rb[k] == a;
                    assert(r0[b as int]@[k] == a);
                    assert(r0[b as int]@.contains(a));
                    assert(f0[a as int]@.contains(b));
                    let q = choose|q: int| 0 <= q < f0[a as int]@.len() && f0[a as int]@[q] == b;
                    assert(fa[q] == b);
                }
            }
        }
    }
}

/// Every file linked to `v` is marked in `vis`.
pub open spec fn closed(g: DepGraph, vis: Seq<bool>, v: usize) -> bool {
    forall|w: usize| #[trigger] g.linked(v, w) ==> w < vis.len() && vis[w as int]
}

/// The number of unmarked entries.
pub open spec fn unmarked(s: Seq<bool>) -> nat
    decreases s.len(),
{
    if s.len() == 0 {
        0
    } else {
        unmarked(s.drop_last()) + if s.last() {
            0nat
        } else {
            1nat
        }
    }
}

proof fn lemma_mark(s: Seq<bool>, i: int)
    requires
        0 <= i < s.len(),
        !s[i],
    ensures
        unmarked(s.update(i, true)) + 1 == unmarked(s),
    decreases s.len(),
{
    if i == s.len() - 1 {
        assert(s.update(i, true).drop_last() =~= s.drop_last());
    } else {
        lemma_mark(s.drop_last(), i);
        assert(s.update(i, true).drop_last() =~= s.drop_last().update(i, true));
    }
}

pub proof fn lemma_extend_walk(g: DepGraph, changed: Seq<usize>, v: usize, w: usize)
    requires
        g.affected(changed, v),
        g.linked(v, w),
    ensures
        g.affected(changed, w),
{
    let p = choose|p: Seq<usize>|
        #![trigger g.is_walk(p)]
        p.len() > 0 && changed.contains(p[0]) && p.last() == v && g.is_walk(p);
    let q = p.push(w);
    assert forall|k: int| 0 <= k < q.len() - 1 implies #[trigger] g.linked(q[k], q[k + 1]) by {
        if k < p.len() - 1 {
            assert(q[k] == p[k] && q[k + 1] == p[k + 1]);
            assert(g.linked(p[k], p[k + 1]));
        } else {
            assert(q[k] == v && q[k + 1] == w);
        }
    }
    assert(g.is_walk(q));
    assert(q[0] == p[0]);
}

proof fn lemma_closed_walk(g: DepGraph, vis: Seq<bool>, changed: Seq<usize>, p: Seq<usize>, k: int)
    requires
        g.wf(),
        vis.len() == g.size(),
        forall|c: int| 0 <= c < changed.len() ==> changed[c] < g.size() && vis[changed[c] as int],
        forall|v: usize| v < g.size() && vis[v as int] ==> closed(g, vis, v),
        p.len() > 0,
        changed.contains(p[0]),
        g.is_walk(p),
        0 <= k < p.len(),
    ensures
        p[k] < g.size() && vis[p[k] as int],
    decreases k,
{
    if k > 0 {
        lemma_closed_walk(g, vis, changed, p, k - 1);
        assert(g.linked(p[k - 1], p[(k - 1) + 1]));
    }
}

/// Marks `w` as reached from `v` unless it already is, and if so stacks it.
fn reach(visited: &mut Vec<bool>, stack: &mut Vec<usize>, w: usize)
    requires
        w < old(visited)@.len(),
    ensures
        final(visited)@ == old(visited)@.update(w as int, true),
        old(visited)@[w as int] ==> final(stack)@ == old(stack)@,
        !old(visited)@[w as int] ==> final(stack)@ == old(stack)@.push(w),
        !old(visited)@[w as int] ==> unmarked(final(visited)@) + 1 == unmarked(old(visited)@),
        old(visited)@[w as int] ==> unmarked(final(visited)@) == unmarked(old(visited)@),
{
    if !visited[w] {
        proof {
            lemma_mark(visited@, w as int);
        }
        visited[w] = true;
        stack.push(w);
    } else {
        assert(visited@.update(w as int, true) =~= visited@);
    }
}

/// Marks every file reached from the changed files through requires and
/// dependents, both ways, until nothing new is reached; a visited mark makes
/// the walk safe on cycles.
pub fn compute_affected_set(changed: &Vec<usize>, graph: &DepGraph) -> (r: Vec<bool>)
    requires
        graph.wf(),
        forall|k: int| 0 <= k < changed@.len() ==> changed@[k] < graph.size(),
    ensures
        r@.len() == graph.size(),
        forall|v: usize| v < graph.size() ==> (r@[v as int] <==> graph.affected(changed@, v)),
{
    let g = graph;
    let n = g.require_relations.len();
    let mut visited: Vec<bool> = Vec::new();
    let mut i: usize = 0;
    while i < n
        invariant
            i <= n,
            visited@.len() == i,
            forall|k: int| 0 <= k < i ==> !visited@[k],
        decreases n - i,
    {
        visited.push(false);
        i += 1;
    }
    let mut stack: Vec<usize> = Vec::new();
    let mut c: usize = 0;
    while c < changed.len()
        invariant
            n == g.size(),
            g.wf(),
            c <= changed@.len(),
            forall|k: int| 0 <= k < changed@.len() ==> changed@[k] < n,
            visited@.len() == n,
            forall|k: int| 0 <= k < stack@.len() ==> stack@[k] < n && visited@[stack@[k] as int],
            forall|v: usize| v < n && visited@[v as int] ==> g.affected(changed@, v),
            forall|v: usize| v < n && visited@[v as int] ==> stack@.contains(v),
            forall|k: int| 0 <= k < c ==> visited@[changed@[k] as int],
        decreases changed@.len() - c,
    {
        let w = changed[c];
        let ghost vis0 = visited@;
        let ghost st0 = stack@;
        proof {
            let p = seq![w];
            assert(p[0] == changed@[c as int]);
            assert(changed@.contains(p[0]));
            assert(g.is_walk(p));
        }
        reach(&mut visited, &mut stack, w);
        proof {
            assert forall|v: usize| v < n && visited@[v as int] implies stack@.contains(v) by {
                if v == w && !vis0[w as int] {
                    assert(stack@[stack@.len() - 1] == w);
                } else if st0.contains(v) {
                    let q = choose|q: int| 0 <= q < st0.len() && st0[q] == v;
                    assert(stack@[q] == v);
                }
            }
        }
        c += 1;
    }
    while stack.len() > 0
        invariant
            n == g.size(),
            g.wf(),
            forall|k: int| 0 <= k < changed@.len() ==> changed@[k] < n,
            visited@.len() == n,
            forall|k: int| 0 <= k < stack@.len() ==> stack@[k] < n && visited@[stack@[k] as int],
            forall|v: usize| v < n && visited@[v as int] ==> g.affected(changed@, v),
            forall|v: usize| v < n && visited@[v as int] ==> stack@.contains(v) || closed(*g, visited@, v),
            forall|k: int| 0 <= k < changed@.len() ==> visited@[changed@[k] as int],
        decreases unmarked(visited@), stack@.len(),
    {
        let ghost u0 = unmarked(visited@);
        let ghost base = unmarked(visited@) + stack@.len() - 1;
        let ghost before_pop = stack@;
        let v = stack.pop().unwrap();
        proof {
            assert forall|u: usize| u < n && visited@[u as int] && u != v implies stack@.contains(u) || closed(*g, visited@, u) by {
                if before_pop.contains(u) {
                    let k = choose|k: int| 0 <= k < before_pop.len() && before_pop[k] == u;
                    assert(k < before_pop.len() - 1);
                    assert(stack@[k] == u);
                }
            }
        }
        let owners = &g.reverse_require[v];
        let mut k: usize = 0;
        while k < owners.len()
            invariant
                n == g.size(),
                g.wf(),
                v < n,
                visited@[v as int],
                owners == g.reverse_require@[v as int],
                k <= owners@.len(),
                forall|q: int| 0 <= q < changed@.len() ==> changed@[q] < n,
                visited@.len() == n,
                forall|q: int| 0 <= q < stack@.len() ==> stack@[q] < n && visited@[stack@[q] as int],
                forall|u: usize| u < n && visited@[u as int] ==> g.affected(changed@, u),
                forall|u: usize| u < n && visited@[u as int] && u != v ==> stack@.contains(u) || closed(*g, visited@, u),
                forall|q: int| 0 <= q < changed@.len() ==> visited@[changed@[q] as int],
                forall|q: int| 0 <= q < k ==> visited@[owners@[q] as int],
                unmarked(visited@) + stack@.len() == base,
                unmarked(visited@) <= u0,
            decreases owners@.len() - k,
        {
            let w = owners[k];
            proof {
                assert(g.reverse_require@[v as int]@.contains(w));
                assert(g.require_relations@[w as int]@.contains(v));
                assert(g.linked(v, w));
                lemma_extend_walk(*g, changed@, v, w);
            }
            let ghost vis0 = visited@;
            let ghost st0 = stack@;
            reach(&mut visited, &mut stack, w);
            proof {
                assert forall|u: usize| u < n && visited@[u as int] && u != v implies stack@.contains(u) || closed(*g, visited@, u) by {
                    if u == w && !vis0[w as int] {
                        assert(stack@[stack@.len() - 1] == w);
                    } else {
                        if st0.contains(u) {
                            let q = choose|q: int| 0 <= q < st0.len() && st0[q] == u;
                            assert(stack@[q] == u);
                        }
                    }
                }
            }
            k += 1;
        }
        let deps = &g.require_relations[v];
        let mut k: usize = 0;
        while k < deps.len()
            invariant
                n == g.size(),
                g.wf(),
                v < n,
                visited@[v as int],
                owners == g.reverse_require@[v as int],
                deps == g.require_relations@[v as int],
                k <= deps@.len(),
                forall|q: int| 0 <= q < changed@.len() ==> changed@[q] < n,
                visited@.len() == n,
                forall|q: int| 0 <= q < stack@.len() ==> stack@[q] < n && visited@[stack@[q] as int],
                forall|u: usize| u < n && visited@[u as int] ==> g.affected(changed@, u),
                forall|u: usize| u < n && visited@[u as int] && u != v ==> stack@.contains(u) || closed(*g, visited@, u),
                forall|q: int| 0 <= q < changed@.len() ==> visited@[changed@[q] as int],
                forall|q: int| 0 <= q < owners@.len() ==> visited@[owners@[q] as int],
                forall|q: int| 0 <= q < k ==> visited@[deps@[q] as int],
                unmarked(visited@) + stack@.len() == base,
                unmarked(visited@) <= u0,
            decreases deps@.len() - k,
        {
            let w = deps[k];
            proof {
                assert(g.require_relations@[v as int]@.contains(w));
                assert(g.linked(v, w));
                lemma_extend_walk(*g, changed@, v, w);
            }
            let ghost vis0 = visited@;
            let ghost st0 = stack@;
            reach(&mut visited, &mut stack, w);
            proof {
                assert forall|u: usize| u < n && visited@[u as int] && u != v implies stack@.contains(u) || closed(*g, visited@, u) by {
                    if u == w && !vis0[w as int] {
                        assert(stack@[stack@.len() - 1] == w);
                    } else {
                        if st0.contains(u) {
                            let q = choose|q: int| 0 <= q < st0.len() && st0[q] == u;
                            assert(stack@[q] == u);
                        }
                    }
                }
            }
            k += 1;
        }
        proof {
            assert forall|w: usize| #[trigger] g.linked(v, w) implies w < visited@.len() && visited@[w as int] by {
                if g.requires_file(v, w) {
                    let q = choose|q: int| 0 <= q < deps@.len() && deps@[q] == w;
                    assert(visited@[deps@[q] as int]);
                } else {
                    assert(g.require_relations@[w as int]@.contains(v));
                    assert(g.reverse_require@[v as int]@.contains(w));
                    let q = choose|q: int| 0 <= q < owners@.len() && owners@[q] == w;
                    assert(visited@[owners@[q] as int]);
                }
            }
            assert(closed(*g, visited@, v));
        }
    }
    proof {
        assert forall|v: usize| v < n implies (visited@[v as int] <==> g.affected(changed@, v)) by {
            if g.affected(changed@, v) {
                let p = choose|p: Seq<usize>|
                    #![trigger g.is_walk(p)]
                    p.len() > 0 && changed@.contains(p[0]) && p.last() == v && g.is_walk(p);
                lemma_closed_walk(*g, visited@, changed@, p, p.len() - 1);
            }
        }
    }
    visited
}

} // verus!
