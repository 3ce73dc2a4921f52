use vstd::prelude::*;
use crate::error::MacroError;
use crate::expansion::{global_frame, global_table, run, ExpandState};
use crate::file::{scopes_view, File};
use crate::scope::MacroTable;
use crate::macros::MacroDef;

verus! {

/// The state in which the expansion of a file starts: its global frame as
/// the only frame, no bindings, no output.
pub open spec fn initial_state(
    deps: Seq<usize>,
    tables: Seq<Map<Seq<char>, MacroDef>>,
    own: Map<Seq<char>, MacroDef>,
) -> ExpandState {
    ExpandState {
        pos: 0,
        out: Seq::empty(),
        scopes: seq![global_frame(deps, tables, own)],
        shadows: seq![Set::empty()],
    }
}

/// Every dependency names a file of the list.
pub open spec fn deps_in_range(rel: Seq<Vec<usize>>, n: int) -> bool {
    forall|f: int, k: int| 0 <= f < rel.len() && 0 <= k < rel[f]@.len() ==> #[trigger] rel[f]@[k] < n
}

/// The files of a project with their exported macros and their requires.
pub struct Processor {
    pub global_macro_map: Vec<MacroTable>,
    pub files: Vec<File>,
    pub require_relations: Vec<Vec<usize>>,
}

impl Processor {
    pub open spec fn wf(&self) -> bool {
        &&& self.global_macro_map@.len() == self.files@.len()
        &&& self.require_relations@.len() == self.files@.len()
        &&& deps_in_range(self.require_relations@, self.files@.len() as int)
        &&& forall|k: int| 0 <= k < self.files@.len() ==> (#[trigger] self.files@[k]).wf()
    }

    /// Collects the global macros of every file, file `k` requiring the files
    /// `require_relations[k]`. Fails with the index of the first file whose
    /// directives are malformed.
    #[verifier::loop_isolation(false)]
    pub fn new(files: Vec<File>, require_relations: Vec<Vec<usize>>) -> (r: Result<Processor, (usize, MacroError)>)
        requires
            require_relations@.len() == files@.len(),
            deps_in_range(require_relations@, files@.len() as int),
            forall|k: int| 0 <= k < files@.len() ==> (#[trigger] files@[k]).wf(),
        ensures
            match r {
                Ok(p) => {
                    &&& p.wf()
                    &&& p.require_relations == require_relations
                    &&& p.files@.len() == files@.len()
                    &&& forall|k: int|
                        0 <= k < files@.len() ==> {
                            &&& (#[trigger] p.files@[k]).tokens == files@[k].tokens
                            &&& p.files@[k].path == files@[k].path
                            &&& global_table(files@[k].tokens@) == Ok::<_, MacroError>(
                                p.global_macro_map@[k]@,
                            )
                        }
                },
                Err((f, e)) => {
                    &&& f < files@.len()
                    &&& global_table(files@[f as int].tokens@) == Err::<Map<Seq<char>, MacroDef>, _>(e)
                    &&& forall|k: int| 0 <= k < f ==> (#[trigger] global_table(files@[k].tokens@)) is Ok
                },
            },
    {
        let ghost orig = files@;
        let mut files = files;
        let mut global_macro_map: Vec<MacroTable> = Vec::new();
        let mut k: usize = 0;
        while k < files.len()
            invariant
                k <= files@.len(),
                files@.len() == orig.len(),
                global_macro_map@.len() == k,
                forall|q: int| 0 <= q < files@.len() ==> (#[trigger] files@[q]).wf(),
                forall|q: int|
                    0 <= q < files@.len() ==> (#[trigger] files@[q]).tokens == orig[q].tokens
                        && files@[q].path == orig[q].path,
                forall|q: int|
                    0 <= q < k ==> global_table(orig[q].tokens@) == Ok::<_, MacroError>(
                        (#[trigger] global_macro_map@[q])@,
                    ),
            decreases files@.len() - k,
        {
            let res = files[k].parse_global_macros();
            match res {
                Ok(t) => {
                    global_macro_map.push(t);
                },
                Err(e) => {
                    assert forall|q: int| 0 <= q < k implies (#[trigger] global_table(
                        orig[q].tokens@,
                    )) is Ok by {
                        assert(global_table(orig[q].tokens@) == Ok::<_, MacroError>(
                            global_macro_map@[q]@,
                        ));
                    }
                    return Err((k, e));
                },
            }
            k += 1;
        }
        Ok(Processor { global_macro_map, files, require_relations })
    }

    /// Expands every file from its global frame and returns the texts, in
    /// the order of the files. Fails with the index of the first file whose
    /// expansion fails. The compile level and the level table take no part.
    #[verifier::loop_isolation(false)]
    pub fn expand_all_with_levels(
        &mut self,
        user_level: u8,
        level_map: &std::collections::HashMap<String, u8>,
    ) -> (r: Result<Vec<String>, (usize, MacroError)>)
        requires
            old(self).wf(),
        ensures
            final(self).wf(),
            final(self).global_macro_map == old(self).global_macro_map,
            final(self).require_relations == old(self).require_relations,
            final(self).files@.len() == old(self).files@.len(),
            match r {
                Ok(outs) => {
                    &&& outs@.len() == old(self).files@.len()
                    &&& forall|k: int|
                        0 <= k < outs@.len() ==> ((#[trigger] old(self).expansion(k)) matches Ok(s)
                            && outs@[k]@ == s.out)
                },
                Err((f, e)) => {
                    &&& f < old(self).files@.len()
                    &&& old(self).expansion(f as int) == Err::<ExpandState, _>(e)
                    &&& forall|k: int| 0 <= k < f ==> (#[trigger] old(self).expansion(k)) is Ok
                },
            },
    {
        let ghost start = *self;
        let mut outs: Vec<String> = Vec::new();
        let mut k: usize = 0;
        let n = self.files.len();
        while k < n
            invariant
                n == self.files@.len(),
                n == start.files@.len(),
                k <= n,
                self.wf(),
                self.global_macro_map == start.global_macro_map,
                self.require_relations == start.require_relations,
                forall|q: int| 0 <= q < n ==> (#[trigger] self.files@[q]).tokens == start.files@[q].tokens,
                outs@.len() == k,
                forall|q: int|
                    0 <= q < k ==> ((#[trigger] start.expansion(q)) matches Ok(s) && outs@[q]@ == s.out),
            decreases n - k,
        {
            assert(self.files@[k as int].wf());
            self.files[k].set_stacks(k, &self.require_relations, &self.global_macro_map);
            let res = self.files[k].expand(user_level, level_map);
            match res {
                Ok(()) => {
                    outs.push(self.files[k].output.clone());
                },
                Err(e) => {
                    return Err((k, e));
                },
            }
            k += 1;
        }
        Ok(outs)
    }

    /// The expansion of file `k` from its global frame.
    pub open spec fn expansion(&self, k: int) -> Result<ExpandState, MacroError> {
        run(
            self.files@[k].tokens@,
            initial_state(
                self.require_relations@[k]@,
                scopes_view(self.global_macro_map@),
                self.global_macro_map@[k]@,
            ),
        )
    }
}

} // verus!
