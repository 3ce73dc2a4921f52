use vstd::prelude::*;
use vstd::string::*;
use crate::text::{
    find_name, first_index, is_word_char, is_word_start, lemma_first_index, lemma_word_end_bounds,
    strings_view, word_char, word_end, word_start,
};

verus! {

/// The mathematical value of a macro: its parameter names and its template text.
pub struct MacroDef {
    pub params: Seq<Seq<char>>,
    pub template: Seq<char>,
}

/// A macro: an ordered list of parameter names (none for a value macro) and
/// the raw template text in which those names stand as placeholders.
#[derive(Clone, Debug)]
pub struct Macro {
    pub params: Vec<String>,
    pub template: String,
}

impl View for Macro {
    type V = MacroDef;

    open spec fn view(&self) -> MacroDef {
        MacroDef { params: strings_view(self.params@), template: self.template@ }
    }
}

/// What an identifier-shaped run `w` of a template becomes: the argument of the
/// first parameter of that name, or `w` itself.
pub open spec fn replace_word(params: Seq<Seq<char>>, args: Seq<Seq<char>>, w: Seq<char>) -> Seq<char> {
    let k = first_index(params, w, 0);
    if 0 <= k < args.len() {
        args[k]
    } else {
        w
    }
}

/// Substitution over the template from position `i` on: every maximal
/// identifier-shaped run is replaced as a whole, all other characters are kept.
pub open spec fn subst_from(t: Seq<char>, params: Seq<Seq<char>>, args: Seq<Seq<char>>, i: int) -> Seq<char>
    decreases t.len() - i,
{
    if i < 0 || i >= t.len() {
        Seq::empty()
    } else if is_word_start(t[i]) {
        proof {
            lemma_word_end_bounds(t, i + 1);
        }
        let e = word_end(t, i + 1);
        replace_word(params, args, t.subrange(i, e)) + subst_from(t, params, args, e)
    } else {
        seq![t[i]] + subst_from(t, params, args, i + 1)
    }
}

/// The text of a macro use: the template itself when there are no parameters
/// or no arguments, else the template with each parameter replaced.
pub open spec fn subst(m: MacroDef, args: Seq<Seq<char>>) -> Seq<char> {
    if m.params.len() == 0 || args.len() == 0 {
        m.template
    } else {
        subst_from(m.template, m.params, args, 0)
    }
}

pub fn copy_strings(v: &Vec<String>) -> (r: Vec<String>)
    ensures
        strings_view(r@) == strings_view(v@),
{
    let mut r: Vec<String> = Vec::new();
    let mut i: usize = 0;
    while i < v.len()
        invariant
            i <= v.len(),
            r@.len() == i,
            forall|k: int| 0 <= k < i ==> r@[k]@ == v@[k]@,
        decreases v.len() - i,
    {
        r.push(v[i].clone());
        i += 1;
    }
    assert(strings_view(r@) =~= strings_view(v@));
    r
}

impl Macro {
    pub fn duplicate(&self) -> (r: Macro)
        ensures
            r@ == self@,
    {
        Macro { params: copy_strings(&self.params), template: self.template.clone() }
    }

    /// Expands the macro with the given arguments, replacing a parameter only
    /// where it stands as a complete identifier-shaped run of the template.
    pub fn expand(&self, args: &[String]) -> (r: String)
        ensures
            r@ == subst(self@, strings_view(args@)),
    {
        if self.params.len() == 0 || args.len() == 0 {
            return self.template.clone();
        }
        let ghost m = self@;
        let ghost a = strings_view(args@);
        let t = self.template.as_str();
        let n = t.unicode_len();
        let mut out = String::new();
        let mut i: usize = 0;
        while i < n
            invariant
                n == t@.len(),
                t@ == m.template,
                m == self@,
                a == strings_view(args@),
                i <= n,
                out@ + subst_from(t@, m.params, a, i as int) == subst_from(t@, m.params, a, 0),
            decreases n - i,
        {
            let c = t.get_char(i);
            if word_start(c) {
                let mut j: usize = i + 1;
                while j < n && word_char(t.get_char(j))
                    invariant
                        i < j <= n,
                        n == t@.len(),
                        word_end(t@, i + 1) == word_end(t@, j as int),
                    decreases n - j,
                {
                    j += 1;
                }
                proof {
                    lemma_word_end_bounds(t@, j as int);
                    lemma_word_end_bounds(t@, i + 1);
                }
                let w = t.substring_char(i, j);
                let k = find_name(&self.params, &String::from_str(w));
                proof {
                    lemma_first_index(strings_view(self.params@), w@, 0);
                }
                let ghost before = out@;
                assert(word_end(t@, i + 1) == j);
                assert(w@ == t@.subrange(i as int, j as int));
                assert(subst_from(t@, m.params, a, i as int) == replace_word(m.params, a, w@)
                    + subst_from(t@, m.params, a, j as int));
                if k < self.params.len() && k < args.len() {
                    assert(a[k as int] == args@[k as int]@);
                    out.append(args[k].as_str());
                } else {
                    out.append(w);
                }
                assert(out@ == before + replace_word(m.params, a, w@));
                assert(out@ + subst_from(t@, m.params, a, j as int) =~= before + subst_from(
                    t@,
                    m.params,
                    a,
                    i as int,
                ));
                i = j;
            } else {
                let s = t.substring_char(i, i + 1);
                let ghost before = out@;
                out.append(s);
                assert(out@ + subst_from(t@, m.params, a, i + 1) =~= before + subst_from(
                    t@,
                    m.params,
                    a,
                    i as int,
                ));
                i = i + 1;
            }
        }
        out
    }
}

} // verus!
