use vstd::prelude::*;

verus! {

/// A character that may begin an identifier-shaped run: an ASCII letter or `_`.
pub open spec fn is_word_start(c: char) -> bool {
    ('a' <= c && c <= 'z') || ('A' <= c && c <= 'Z') || c == '_'
}

/// A character that may continue an identifier-shaped run: an ASCII letter, digit or `_`.
pub open spec fn is_word_char(c: char) -> bool {
    is_word_start(c) || ('0' <= c && c <= '9')
}

pub fn word_start(c: char) -> (r: bool)
    ensures
        r == is_word_start(c),
{
    ('a' <= c && c <= 'z') || ('A' <= c && c <= 'Z') || c == '_'
}

pub fn word_char(c: char) -> (r: bool)
    ensures
        r == is_word_char(c),
{
    word_start(c) || ('0' <= c && c <= '9')
}

/// The end of the run of word characters in `t` that starts at `i`.
pub open spec fn word_end(t: Seq<char>, i: int) -> int
    decreases t.len() - i,
{
    if 0 <= i < t.len() && is_word_char(t[i]) {
        word_end(t, i + 1)
    } else {
        i
    }
}

pub proof fn lemma_word_end_bounds(t: Seq<char>, i: int)
    requires
        0 <= i <= t.len(),
    ensures
        i <= word_end(t, i) <= t.len(),
        forall|k: int| i <= k < word_end(t, i) ==> is_word_char(t[k]),
        word_end(t, i) < t.len() ==> !is_word_char(t[word_end(t, i)]),
    decreases t.len() - i,
{
    if i < t.len() && is_word_char(t[i]) {
        lemma_word_end_bounds(t, i + 1);
    }
}

pub open spec fn strings_view(v: Seq<String>) -> Seq<Seq<char>> {
    v.map_values(|s: String| s@)
}

/// Index of the first of `names` at or after `i` that equals `w`, or -1.
pub open spec fn first_index(names: Seq<Seq<char>>, w: Seq<char>, i: int) -> int
    decreases names.len() - i,
{
    if i < 0 || i >= names.len() {
        -1
    } else if names[i] == w {
        i
    } else {
        first_index(names, w, i + 1)
    }
}

pub proof fn lemma_first_index(names: Seq<Seq<char>>, w: Seq<char>, i: int)
    requires
        0 <= i,
    ensures
        first_index(names, w, i) == -1 || (i <= first_index(names, w, i) < names.len()
            && names[first_index(names, w, i)] == w),
        first_index(names, w, i) == -1 ==> forall|k: int| i <= k < names.len() ==> names[k] != w,
    decreases names.len() - i,
{
    if i < names.len() && names[i] != w {
        lemma_first_index(names, w, i + 1);
    }
}

/// The index of the first of `names` equal to `w`, or the length when none is.
pub fn find_name(names: &Vec<String>, w: &String) -> (r: usize)
    ensures
        r as int == first_index(strings_view(names@), w@, 0) || (r == names@.len()
            && first_index(strings_view(names@), w@, 0) == -1),
{
    let ghost ns = strings_view(names@);
    let mut i: usize = 0;
    while i < names.len()
        invariant
            i <= names@.len(),
            ns == strings_view(names@),
            first_index(ns, w@, 0) == first_index(ns, w@, i as int),
        decreases names@.len() - i,
    {
        assert(ns[i as int] == names@[i as int]@);
        if names[i] == *w {
            return i;
        }
        i += 1;
    }
    i
}

} // verus!
