use vstd::prelude::*;
use crate::macros::{Macro, MacroDef};

verus! {

/// The map that a list of definitions stands for: a later definition of a
/// name overrides an earlier one.
pub open spec fn entries_map<V: View>(s: Seq<(String, V)>) -> Map<Seq<char>, V::V>
    decreases s.len(),
{
    if s.len() == 0 {
        Map::empty()
    } else {
        entries_map(s.drop_last()).insert(s.last().0@, s.last().1@)
    }
}

pub proof fn lemma_entries_tail<V: View>(s: Seq<(String, V)>, i: int, name: Seq<char>)
    requires
        0 <= i <= s.len(),
        forall|k: int| i <= k < s.len() ==> s[k].0@ != name,
    ensures
        entries_map(s).contains_key(name) == entries_map(s.take(i)).contains_key(name),
        entries_map(s).contains_key(name) ==> entries_map(s)[name] == entries_map(s.take(i))[name],
    decreases s.len(),
{
    if i == s.len() {
        assert(s.take(i) =~= s);
    } else {
        lemma_entries_tail(s.drop_last(), i, name);
        assert(s.drop_last().take(i) =~= s.take(i));
    }
}

pub proof fn lemma_entries_append<V: View>(a: Seq<(String, V)>, b: Seq<(String, V)>)
    ensures
        entries_map(a + b) == entries_map(a).union_prefer_right(entries_map(b)),
    decreases b.len(),
{
    if b.len() == 0 {
        assert(a + b =~= a);
        assert(entries_map(a).union_prefer_right(entries_map(b)) =~= entries_map(a));
    } else {
        lemma_entries_append(a, b.drop_last());
        assert((a + b).drop_last() =~= a + b.drop_last());
        assert(entries_map(a + b) =~= entries_map(a).union_prefer_right(entries_map(b)));
    }
}

/// The value of the last entry named `name`, as `entries_map` sees it.
pub fn find_entry<'a, V: View>(entries: &'a Vec<(String, V)>, name: &String) -> (r: Option<&'a V>)
    ensures
        r is Some <==> entries_map(entries@).contains_key(name@),
        r is Some ==> r->0@ == entries_map(entries@)[name@],
{
    let ghost s = entries@;
    let mut i: usize = entries.len();
    while i > 0
        invariant
            i <= s.len(),
            s == entries@,
            forall|k: int| i <= k < s.len() ==> s[k].0@ != name@,
        decreases i,
    {
        if entries[i - 1].0 == *name {
            proof {
                lemma_entries_tail(s, i as int, name@);
                assert(s.take(i as int).drop_last() =~= s.take(i - 1));
            }
            return Some(&entries[i - 1].1);
        }
        i -= 1;
    }
    proof {
        lemma_entries_tail(s, 0, name@);
        assert(s.take(0) =~= Seq::<(String, V)>::empty());
    }
    None
}

/// A frame of macro definitions, name to macro.
pub struct MacroTable {
    entries: Vec<(String, Macro)>,
}

impl View for MacroTable {
    type V = Map<Seq<char>, MacroDef>;

    closed spec fn view(&self) -> Map<Seq<char>, MacroDef> {
        entries_map(self.entries@)
    }
}

impl MacroTable {
    pub fn new() -> (r: MacroTable)
        ensures
            r@ == Map::<Seq<char>, MacroDef>::empty(),
    {
        MacroTable { entries: Vec::new() }
    }

    pub fn insert(&mut self, name: String, m: Macro)
        ensures
            final(self)@ == old(self)@.insert(name@, m@),
    {
        let ghost s = self.entries@;
        self.entries.push((name, m));
        assert(self.entries@.drop_last() =~= s);
    }

    pub fn get(&self, name: &String) -> (r: Option<&Macro>)
        ensures
            r is Some <==> self@.contains_key(name@),
            r is Some ==> r->0@ == self@[name@],
    {
        find_entry(&self.entries, name)
    }

    /// Adds every definition of `other`, which override those of `self`.
    pub fn extend_from(&mut self, other: &MacroTable)
        ensures
            final(self)@ == old(self)@.union_prefer_right(other@),
    {
        let ghost s0 = self.entries@;
        let mut i: usize = 0;
        while i < other.entries.len()
            invariant
                i <= other.entries@.len(),
                entries_map(self.entries@) == entries_map(s0 + other.entries@.take(i as int)),
            decreases other.entries@.len() - i,
        {
            let name = other.entries[i].0.clone();
            let m = other.entries[i].1.duplicate();
            let ghost before = self.entries@;
            self.entries.push((name, m));
            proof {
                assert(self.entries@.drop_last() =~= before);
                let t = s0 + other.entries@.take(i + 1);
                assert(t.drop_last() =~= s0 + other.entries@.take(i as int));
            }
            i += 1;
        }
        proof {
            assert(other.entries@.take(i as int) =~= other.entries@);
            lemma_entries_append(s0, other.entries@);
        }
    }
}

/// A frame of ordinary bindings that hide macros of the same name.
pub struct NameSet {
    names: Vec<String>,
}

impl View for NameSet {
    type V = Set<Seq<char>>;

    closed spec fn view(&self) -> Set<Seq<char>> {
        Set::new(|w: Seq<char>| exists|k: int| 0 <= k < self.names@.len() && self.names@[k]@ == w)
    }
}

impl NameSet {
    pub fn new() -> (r: NameSet)
        ensures
            r@ == Set::<Seq<char>>::empty(),
    {
        let r = NameSet { names: Vec::new() };
        assert(r@ =~= Set::<Seq<char>>::empty());
        r
    }

    pub fn insert(&mut self, name: String)
        ensures
            final(self)@ == old(self)@.insert(name@),
    {
        let ghost old_set = self@;
        let ghost n = self.names@.len();
        self.names.push(name);
        assert forall|w: Seq<char>| #[trigger] self@.contains(w) == old_set.insert(name@).contains(w) by {
            if old_set.contains(w) {
                let k = choose|k: int| 0 <= k < n && old(self).names@[k]@ == w;
                assert(self.names@[k]@ == w);
            }
            if w == name@ {
                assert(self.names@[n as int]@ == w);
            }
        }
        assert(self@ =~= old_set.insert(name@));
    }

    pub fn contains(&self, name: &String) -> (r: bool)
        ensures
            r == self@.contains(name@),
    {
        let mut i: usize = 0;
        while i < self.names.len()
            invariant
                i <= self.names@.len(),
                forall|k: int| 0 <= k < i ==> self.names@[k]@ != name@,
            decreases self.names@.len() - i,
        {
            if self.names[i] == *name {
                return true;
            }
            i += 1;
        }
        false
    }
}

} // verus!

verus! {

/// The depth of the innermost of the frames below `d` that defines `name`, or -1.
pub open spec fn innermost_def(scopes: Seq<Map<Seq<char>, MacroDef>>, name: Seq<char>, d: int) -> int
    decreases d,
{
    if d <= 0 {
        -1
    } else if scopes[d - 1].contains_key(name) {
        d - 1
    } else {
        innermost_def(scopes, name, d - 1)
    }
}

/// Some shadow frame at depth `d` or above holds `name`.
pub open spec fn shadowed_from(shadows: Seq<Set<Seq<char>>>, name: Seq<char>, d: int) -> bool {
    exists|k: int| d <= k < shadows.len() && #[trigger] shadows[k].contains(name)
}

/// The macro that an identifier stands for: the innermost definition of the
/// name, unless a shadow frame at its depth or above holds the name.
pub open spec fn resolve(
    scopes: Seq<Map<Seq<char>, MacroDef>>,
    shadows: Seq<Set<Seq<char>>>,
    name: Seq<char>,
) -> Option<MacroDef> {
    let d = innermost_def(scopes, name, scopes.len() as int);
    if d < 0 || shadowed_from(shadows, name, d) {
        None
    } else {
        Some(scopes[d][name])
    }
}

pub proof fn lemma_innermost_def(scopes: Seq<Map<Seq<char>, MacroDef>>, name: Seq<char>, d: int)
    requires
        0 <= d <= scopes.len(),
    ensures
        -1 <= innermost_def(scopes, name, d) < d,
        innermost_def(scopes, name, d) >= 0 ==> scopes[innermost_def(scopes, name, d)].contains_key(
            name,
        ),
        forall|k: int|
            innermost_def(scopes, name, d) < k < d ==> !(#[trigger] scopes[k].contains_key(name)),
    decreases d,
{
    if d > 0 && !scopes[d - 1].contains_key(name) {
        lemma_innermost_def(scopes, name, d - 1);
    }
}

} // verus!
