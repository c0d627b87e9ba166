//! Lists of names.

use vstd::prelude::*;
use crate::text::str_eq;

verus! {

/// The text of each entry.
pub open spec fn texts(s: Seq<String>) -> Seq<Seq<char>> {
    s.map_values(|x: String| x@)
}

/// The names without one of them.
pub open spec fn without(s: Seq<Seq<char>>, name: Seq<char>) -> Seq<Seq<char>> {
    s.filter(|x: Seq<char>| x != name)
}

/// Take every occurrence of a name out of a list; whether any was there.
pub fn remove_name(names: &mut Vec<String>, name: &str) -> (changed: bool)
    ensures
        texts(final(names)@) == without(texts(old(names)@), name@),
        changed == texts(old(names)@).contains(name@),
{
    let ghost all = texts(names@);
    let mut kept: Vec<String> = Vec::new();
    let mut changed = false;
    let mut i: usize = 0;
    assert(texts(kept@) =~= without(all.take(0), name@)) by {
        reveal(Seq::filter);
    }
    while i < names.len()
        invariant
            i <= names@.len(),
            names@ == old(names)@,
            all == texts(names@),
            texts(kept@) == without(all.take(i as int), name@),
            changed == all.take(i as int).contains(name@),
        decreases names@.len() - i,
    {
        let ghost head = all.take(i as int);
        assert(all.take(i + 1) =~= head.push(all[i as int]));
        assert(all[i as int] == names@[i as int]@);
        let hit = str_eq(names[i].as_str(), name);
        let ghost before = kept@;
        if hit {
            changed = true;
        } else {
            kept.push(names[i].clone());
        }
        proof {
            lemma_filter_push(head, all[i as int], name@);
            if hit {
                assert(head.push(all[i as int])[i as int] == name@);
            } else {
                assert(texts(kept@) =~= texts(before).push(all[i as int]));
            }
            lemma_contains_push(head, all[i as int], name@);
        }
        i += 1;
    }
    assert(all.take(i as int) =~= all);
    *names = kept;
    changed
}

/// Filtering one more name.
pub proof fn lemma_filter_push(s: Seq<Seq<char>>, x: Seq<char>, name: Seq<char>)
    ensures
        without(s.push(x), name) == (if x == name {
            without(s, name)
        } else {
            without(s, name).push(x)
        }),
{
    reveal(Seq::filter);
    assert(s.push(x).drop_last() =~= s);
}

/// Whether a name is in a list.
pub fn has_name(names: &Vec<String>, name: &str) -> (r: bool)
    ensures
        r == texts(names@).contains(name@),
{
    let mut i: usize = 0;
    while i < names.len()
        invariant
            i <= names@.len(),
            forall|j: int| 0 <= j < i ==> (#[trigger] names@[j])@ != name@,
        decreases names@.len() - i,
    {
        if str_eq(names[i].as_str(), name) {
            assert(texts(names@)[i as int] == name@);
            return true;
        }
        i += 1;
    }
    assert(!texts(names@).contains(name@)) by {
        if texts(names@).contains(name@) {
            let k = choose|k: int| 0 <= k < names@.len() && texts(names@)[k] == name@;
            assert(names@[k]@ == name@);
        }
    }
    false
}

pub proof fn lemma_contains_push(s: Seq<Seq<char>>, x: Seq<char>, y: Seq<char>)
    ensures
        s.push(x).contains(y) <==> s.contains(y) || x == y,
{
    if s.contains(y) {
        let i = choose|i: int| 0 <= i < s.len() && s[i] == y;
        assert(s.push(x)[i] == y);
    }
    if x == y {
        assert(s.push(x)[s.len() as int] == y);
    }
    if s.push(x).contains(y) && x != y {
        let i = choose|i: int| 0 <= i < s.push(x).len() && s.push(x)[i] == y;
        assert(s[i] == y);
    }
}

/// Taking a name out leaves the others.
pub proof fn lemma_without(s: Seq<Seq<char>>, name: Seq<char>, x: Seq<char>)
    ensures
        without(s, name).contains(x) <==> s.contains(x) && x != name,
    decreases s.len(),
{
    reveal(Seq::filter);
    if s.len() > 0 {
        let t = s.drop_last();
        lemma_without(t, name, x);
        assert(s =~= t.push(s.last()));
        lemma_filter_push(t, s.last(), name);
        lemma_contains_push(t, s.last(), x);
        lemma_contains_push(without(t, name), s.last(), x);
    }
}

/// Taking a name out leaves a list without repetitions without any, and
/// one that does not hold it as it is.
pub proof fn lemma_without_keeps(s: Seq<Seq<char>>, name: Seq<char>)
    ensures
        s.no_duplicates() ==> without(s, name).no_duplicates(),
        !s.contains(name) ==> without(s, name) == s,
    decreases s.len(),
{
    reveal(Seq::filter);
    if s.len() == 0 {
        assert(without(s, name) =~= s);
    } else {
        let t = s.drop_last();
        let x = s.last();
        assert(s =~= t.push(x));
        lemma_without_keeps(t, name);
        lemma_filter_push(t, x, name);
        lemma_contains_push(t, x, name);
        lemma_without(t, name, x);
        if s.no_duplicates() {
            assert(forall|i: int| 0 <= i < t.len() ==> #[trigger] t[i] == s[i]);
            assert(!t.contains(x));
            if x != name {
                lemma_push_new(without(t, name), x);
            }
        }
    }
}

/// A name that is not in a list without repetitions can be added to it.
pub proof fn lemma_push_new(s: Seq<Seq<char>>, x: Seq<char>)
    requires
        s.no_duplicates(),
        !s.contains(x),
    ensures
        s.push(x).no_duplicates(),
{
    let r = s.push(x);
    assert forall|i: int, j: int| 0 <= i < r.len() && 0 <= j < r.len() && i != j implies r[i]
        != r[j] by {
        if i < s.len() && j < s.len() {
            assert(s[i] != s[j]);
        }
    }
}

/// A list of names without one of them is what is left of it, in order.
pub proof fn law_names_are_taken_out_one_by_one(
    s: Seq<Seq<char>>,
    x: Seq<char>,
    name: Seq<char>,
)
    ensures
        without(seq![], name).len() == 0,
        x != name ==> without(s.push(x), name) == without(s, name).push(x),
        without(s.push(name), name) == without(s, name),
{
    reveal(Seq::filter);
    lemma_filter_push(s, x, name);
    lemma_filter_push(s, name, name);
}

/// The texts of a list are those of its entries, in order.
pub proof fn law_texts_are_those_of_the_entries(s: Seq<String>, i: int)
    requires
        0 <= i < s.len(),
    ensures
        texts(s).len() == s.len(),
        texts(s)[i] == s[i]@,
{
}

} // verus!
