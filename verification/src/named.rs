//! Collections kept sorted by name, without two items of the same name.

use crate::strings::{
    lemma_lex_lt_asymmetric, lemma_lex_lt_irreflexive, lemma_lex_lt_total,
    lemma_lex_lt_transitive, lex_lt, string_lt,
};
use vstd::prelude::*;

verus! {

/// Anything identified by a name.
pub trait HasName {
    /// The name, by its characters.
    spec fn spec_name(&self) -> Seq<char>;

    /// The name.
    fn name_ref(&self) -> (r: &String)
        ensures
            r@ == self.spec_name(),
    ;
}

impl HasName for String {
    open spec fn spec_name(&self) -> Seq<char> {
        self@
    }

    fn name_ref(&self) -> (r: &String) {
        self
    }
}

/// The items are sorted by name, strictly: no two items share a name.
pub open spec fn names_sorted<T: HasName>(s: Seq<T>) -> bool {
    forall|i: int, j: int|
        0 <= i < j < s.len() ==> lex_lt(#[trigger] s[i].spec_name(), #[trigger] s[j].spec_name())
}

/// Some item has the given name.
pub open spec fn has_name<T: HasName>(s: Seq<T>, name: Seq<char>) -> bool {
    exists|i: int| 0 <= i < s.len() && #[trigger] s[i].spec_name() == name
}

/// The names of the items, as a set.
pub open spec fn name_set<T: HasName>(s: Seq<T>) -> Set<Seq<char>> {
    Set::new(|n: Seq<char>| has_name(s, n))
}

/// The position of the item with the given name.
pub open spec fn name_index<T: HasName>(s: Seq<T>, name: Seq<char>) -> int {
    choose|i: int| 0 <= i < s.len() && #[trigger] s[i].spec_name() == name
}

/// The items by their names.
pub open spec fn name_map<T: HasName + View>(s: Seq<T>) -> Map<Seq<char>, T::V> {
    Map::new(|n: Seq<char>| has_name(s, n), |n: Seq<char>| s[name_index(s, n)]@)
}

/// In a sorted collection, the map by name holds each item under its name.
pub proof fn lemma_name_map_index<T: HasName + View>(s: Seq<T>, i: int)
    requires
        names_sorted(s),
        0 <= i < s.len(),
    ensures
        name_map(s).contains_key(s[i].spec_name()),
        name_map(s)[s[i].spec_name()] == s[i]@,
        name_index(s, s[i].spec_name()) == i,
{
    let n = s[i].spec_name();
    assert(has_name(s, n));
    let j = name_index(s, n);
    lemma_sorted_unique(s, i, j);
}

/// The keys of the map by name are the names of the items.
pub proof fn lemma_name_map_dom<T: HasName + View>(s: Seq<T>)
    ensures
        name_map(s).dom() == name_set(s),
{
    assert(name_map(s).dom() =~= name_set(s));
}

/// Inserting at a position which fits its name adds the item to the map by name.
pub proof fn lemma_name_map_insert<T: HasName + View>(s: Seq<T>, p: int, x: T)
    requires
        names_sorted(s),
        0 <= p <= s.len(),
        forall|i: int| 0 <= i < p ==> lex_lt(#[trigger] s[i].spec_name(), x.spec_name()),
        forall|i: int| p <= i < s.len() ==> lex_lt(x.spec_name(), #[trigger] s[i].spec_name()),
    ensures
        name_map(s.insert(p, x)) == name_map(s).insert(x.spec_name(), x@),
{
    let t = s.insert(p, x);
    lemma_insert_sorted(s, p, x);
    assert forall|n: Seq<char>| #[trigger] name_map(t).contains_key(n) <==> name_map(s).insert(x.spec_name(), x@).contains_key(n) by {
        assert(name_set(t).contains(n) == has_name(t, n));
        assert(name_set(s).contains(n) == has_name(s, n));
    }
    assert forall|n: Seq<char>| #[trigger] name_map(t).contains_key(n) implies name_map(t)[n] == name_map(s).insert(x.spec_name(), x@)[n] by {
        let i = name_index(t, n);
        lemma_name_map_index(t, i);
        if i < p {
            assert(t[i] == s[i]);
            lemma_name_map_index(s, i);
            lemma_lex_lt_irreflexive(n);
        } else if i > p {
            assert(t[i] == s[i - 1]);
            lemma_name_map_index(s, i - 1);
            lemma_lex_lt_irreflexive(n);
        }
    }
    assert(name_map(t) =~= name_map(s).insert(x.spec_name(), x@));
}

/// Removing an item removes its name from the map by name.
pub proof fn lemma_name_map_remove<T: HasName + View>(s: Seq<T>, p: int)
    requires
        names_sorted(s),
        0 <= p < s.len(),
    ensures
        name_map(s.remove(p)) == name_map(s).remove(s[p].spec_name()),
{
    let t = s.remove(p);
    lemma_remove_sorted(s, p);
    assert forall|n: Seq<char>| #[trigger] name_map(t).contains_key(n) <==> name_map(s).remove(s[p].spec_name()).contains_key(n) by {
        assert(name_set(t).contains(n) == has_name(t, n));
        assert(name_set(s).contains(n) == has_name(s, n));
    }
    assert forall|n: Seq<char>| #[trigger] name_map(t).contains_key(n) implies name_map(t)[n] == name_map(s).remove(s[p].spec_name())[n] by {
        let i = name_index(t, n);
        lemma_name_map_index(t, i);
        if i < p {
            assert(t[i] == s[i]);
            lemma_name_map_index(s, i);
        } else {
            assert(t[i] == s[i + 1]);
            lemma_name_map_index(s, i + 1);
        }
    }
    assert(name_map(t) =~= name_map(s).remove(s[p].spec_name()));
}

/// Replacing an item by one with the same name replaces it in the map by name.
pub proof fn lemma_name_map_update<T: HasName + View>(s: Seq<T>, p: int, x: T)
    requires
        names_sorted(s),
        0 <= p < s.len(),
        x.spec_name() == s[p].spec_name(),
    ensures
        name_map(s.update(p, x)) == name_map(s).insert(x.spec_name(), x@),
        names_sorted(s.update(p, x)),
{
    let t = s.update(p, x);
    lemma_update_same_name(s, p, x);
    assert forall|n: Seq<char>| #[trigger] name_map(t).contains_key(n) <==> name_map(s).insert(x.spec_name(), x@).contains_key(n) by {
        assert(name_set(t).contains(n) == has_name(t, n));
        assert(name_set(s).contains(n) == has_name(s, n));
        if n == x.spec_name() {
            assert(t[p].spec_name() == n);
        }
    }
    assert forall|n: Seq<char>| #[trigger] name_map(t).contains_key(n) implies name_map(t)[n] == name_map(s).insert(x.spec_name(), x@)[n] by {
        let i = name_index(t, n);
        lemma_name_map_index(t, i);
        assert(t[p] == x);
        if i != p {
            assert(t[i] == s[i]);
            lemma_name_map_index(s, i);
            if n == x.spec_name() {
                lemma_sorted_unique(t, i, p);
            }
        }
    }
    assert(name_map(t) =~= name_map(s).insert(x.spec_name(), x@));
}

/// Two sequences holding items with the same names at the same positions have the same
/// order and the same names; the map by name of the second one holds its items.
pub proof fn lemma_name_map_pointwise<T: HasName + View>(s: Seq<T>, t: Seq<T>)
    requires
        names_sorted(s),
        s.len() == t.len(),
        forall|i: int| 0 <= i < s.len() ==> (#[trigger] t[i]).spec_name() == s[i].spec_name(),
    ensures
        names_sorted(t),
        name_map(t).dom() == name_map(s).dom(),
        forall|i: int|
            0 <= i < t.len() ==> #[trigger] name_map(t)[t[i].spec_name()] == t[i]@ && name_map(
                s,
            )[s[i].spec_name()] == s[i]@,
        forall|n: Seq<char>|
            #[trigger] name_map(s).contains_key(n) ==> exists|i: int|
                0 <= i < s.len() && #[trigger] s[i].spec_name() == n && name_map(t)[n] == t[i]@
                    && name_map(s)[n] == s[i]@,
{
    assert forall|a: int, b: int| 0 <= a < b < t.len() implies lex_lt(
        #[trigger] t[a].spec_name(),
        #[trigger] t[b].spec_name(),
    ) by {
        assert(lex_lt(s[a].spec_name(), s[b].spec_name()));
    }
    assert forall|n: Seq<char>| has_name(t, n) <==> has_name(s, n) by {
        if has_name(t, n) {
            let i = choose|i: int| 0 <= i < t.len() && #[trigger] t[i].spec_name() == n;
            assert(s[i].spec_name() == n);
        }
        if has_name(s, n) {
            let i = choose|i: int| 0 <= i < s.len() && #[trigger] s[i].spec_name() == n;
            assert(t[i].spec_name() == n);
        }
    }
    assert(name_map(t).dom() =~= name_map(s).dom());
    assert forall|i: int| 0 <= i < t.len() implies #[trigger] name_map(t)[t[i].spec_name()]
        == t[i]@ && name_map(s)[s[i].spec_name()] == s[i]@ by {
        lemma_name_map_index(t, i);
        lemma_name_map_index(s, i);
    }
    assert forall|n: Seq<char>| #[trigger] name_map(s).contains_key(n) implies exists|i: int|
        0 <= i < s.len() && #[trigger] s[i].spec_name() == n && name_map(t)[n] == t[i]@
            && name_map(s)[n] == s[i]@ by {
        let i = name_index(s, n);
        lemma_name_map_index(t, i);
        lemma_name_map_index(s, i);
    }
}

/// Inserts the item at its place if no item has its name. Returns true if it was inserted.
pub fn sorted_insert<T: HasName + View>(v: &mut Vec<T>, x: T) -> (b: bool)
    requires
        names_sorted(old(v)@),
    ensures
        names_sorted(final(v)@),
        b == !has_name(old(v)@, x.spec_name()),
        b ==> name_set(final(v)@) == name_set(old(v)@).insert(x.spec_name()) && name_map(
            final(v)@,
        ) == name_map(old(v)@).insert(x.spec_name(), x@) && exists|p: int|
            0 <= p <= old(v)@.len() && final(v)@ == old(v)@.insert(p, x),
        !b ==> final(v)@ == old(v)@,
{
    match find_by_name(v, x.name_ref()) {
        Some(_) => false,
        None => {
            let p = insertion_position(v, x.name_ref());
            let ghost s = v@;
            proof {
                lemma_insert_sorted(s, p as int, x);
                lemma_name_map_insert(s, p as int, x);
            }
            v.insert(p, x);
            true
        },
    }
}

/// Removes the item with the given name, if any. Returns true if it was removed.
pub fn sorted_remove<T: HasName + View>(v: &mut Vec<T>, name: &String) -> (b: bool)
    requires
        names_sorted(old(v)@),
    ensures
        names_sorted(final(v)@),
        b == has_name(old(v)@, name@),
        b ==> name_set(final(v)@) == name_set(old(v)@).remove(name@) && name_map(final(v)@)
            == name_map(old(v)@).remove(name@) && exists|p: int|
            0 <= p < old(v)@.len() && final(v)@ == old(v)@.remove(p),
        !b ==> final(v)@ == old(v)@,
{
    match find_by_name(v, name) {
        None => false,
        Some(p) => {
            let ghost s = v@;
            proof {
                lemma_remove_sorted(s, p as int);
                lemma_name_map_remove(s, p as int);
            }
            v.remove(p);
            true
        },
    }
}

/// True if an item has the given name.
pub fn contains_name<T: HasName>(v: &Vec<T>, name: &String) -> (b: bool)
    ensures
        b == has_name(v@, name@),
{
    find_by_name(v, name).is_some()
}

/// The set of names of a sequence is finite.
pub proof fn lemma_name_set_finite<T: HasName>(s: Seq<T>)
    ensures
        name_set(s).finite(),
{
    let f = |t: T| t.spec_name();
    assert(name_set(s) =~= s.map_values(f).to_set()) by {
        assert forall|n: Seq<char>| name_set(s).contains(n) <==> s.map_values(f).to_set().contains(n) by {
            if has_name(s, n) {
                let i = choose|i: int| 0 <= i < s.len() && #[trigger] s[i].spec_name() == n;
                assert(s.map_values(f)[i] == n);
            }
            if s.map_values(f).contains(n) {
                let i = choose|i: int| 0 <= i < s.map_values(f).len() && s.map_values(f)[i] == n;
                assert(s[i].spec_name() == n);
            }
        }
    }
    vstd::seq_lib::seq_to_set_is_finite(s.map_values(f));
}

/// In a collection sorted by name, the item with a given name is unique.
pub proof fn lemma_sorted_unique<T: HasName>(s: Seq<T>, i: int, j: int)
    requires
        names_sorted(s),
        0 <= i < s.len(),
        0 <= j < s.len(),
        s[i].spec_name() == s[j].spec_name(),
    ensures
        i == j,
{
    if i < j {
        lemma_lex_lt_irreflexive(s[i].spec_name());
    } else if j < i {
        lemma_lex_lt_irreflexive(s[i].spec_name());
    }
}

/// Inserting an item at a position which fits its name keeps the items sorted.
pub proof fn lemma_insert_sorted<T: HasName>(s: Seq<T>, p: int, x: T)
    requires
        names_sorted(s),
        0 <= p <= s.len(),
        forall|i: int| 0 <= i < p ==> lex_lt(#[trigger] s[i].spec_name(), x.spec_name()),
        forall|i: int| p <= i < s.len() ==> lex_lt(x.spec_name(), #[trigger] s[i].spec_name()),
    ensures
        names_sorted(s.insert(p, x)),
        name_set(s.insert(p, x)) == name_set(s).insert(x.spec_name()),
{
    let t = s.insert(p, x);
    assert forall|i: int, j: int|
        0 <= i < j < t.len() implies lex_lt(#[trigger] t[i].spec_name(), #[trigger] t[j].spec_name()) by {
        if j < p {
        } else if j == p {
        } else if i < p {
            assert(t[j] == s[j - 1]);
        } else if i == p {
            assert(t[j] == s[j - 1]);
        } else {
            assert(t[i] == s[i - 1]);
            assert(t[j] == s[j - 1]);
        }
    }
    assert forall|n: Seq<char>| name_set(t).contains(n) <==> name_set(s).insert(x.spec_name()).contains(n) by {
        if has_name(t, n) {
            let i = choose|i: int| 0 <= i < t.len() && #[trigger] t[i].spec_name() == n;
            if i < p {
                assert(s[i] == t[i]);
            } else if i > p {
                assert(s[i - 1] == t[i]);
            }
        }
        if has_name(s, n) {
            let i = choose|i: int| 0 <= i < s.len() && #[trigger] s[i].spec_name() == n;
            if i < p {
                assert(s[i] == t[i]);
            } else {
                assert(s[i] == t[i + 1]);
            }
        }
        if n == x.spec_name() {
            assert(t[p] == x);
        }
    }
    assert(name_set(t) =~= name_set(s).insert(x.spec_name()));
}

/// Removing an item keeps the items sorted and removes exactly its name.
pub proof fn lemma_remove_sorted<T: HasName>(s: Seq<T>, p: int)
    requires
        names_sorted(s),
        0 <= p < s.len(),
    ensures
        names_sorted(s.remove(p)),
        name_set(s.remove(p)) == name_set(s).remove(s[p].spec_name()),
{
    let t = s.remove(p);
    assert forall|i: int, j: int|
        0 <= i < j < t.len() implies lex_lt(#[trigger] t[i].spec_name(), #[trigger] t[j].spec_name()) by {
        if j < p {
        } else if i < p {
            assert(t[j] == s[j + 1]);
        } else {
            assert(t[i] == s[i + 1]);
            assert(t[j] == s[j + 1]);
        }
    }
    assert forall|n: Seq<char>| name_set(t).contains(n) <==> name_set(s).remove(s[p].spec_name()).contains(n) by {
        if has_name(t, n) {
            let i = choose|i: int| 0 <= i < t.len() && #[trigger] t[i].spec_name() == n;
            if i < p {
                assert(s[i] == t[i]);
                lemma_lex_lt_irreflexive(n);
            } else {
                assert(s[i + 1] == t[i]);
                lemma_lex_lt_irreflexive(n);
            }
        }
        if has_name(s, n) && n != s[p].spec_name() {
            let i = choose|i: int| 0 <= i < s.len() && #[trigger] s[i].spec_name() == n;
            if i < p {
                assert(s[i] == t[i]);
            } else {
                assert(s[i] == t[i - 1]);
            }
        }
    }
    assert(name_set(t) =~= name_set(s).remove(s[p].spec_name()));
}

/// Replacing an item by one with the same name keeps the items sorted.
pub proof fn lemma_update_same_name<T: HasName>(s: Seq<T>, p: int, x: T)
    requires
        names_sorted(s),
        0 <= p < s.len(),
        x.spec_name() == s[p].spec_name(),
    ensures
        names_sorted(s.update(p, x)),
        name_set(s.update(p, x)) == name_set(s),
{
    let t = s.update(p, x);
    assert forall|i: int, j: int|
        0 <= i < j < t.len() implies lex_lt(#[trigger] t[i].spec_name(), #[trigger] t[j].spec_name()) by {
        assert(t[i].spec_name() == s[i].spec_name());
        assert(t[j].spec_name() == s[j].spec_name());
    }
    assert forall|n: Seq<char>| name_set(t).contains(n) <==> name_set(s).contains(n) by {
        if has_name(t, n) {
            let i = choose|i: int| 0 <= i < t.len() && #[trigger] t[i].spec_name() == n;
            assert(s[i].spec_name() == n);
        }
        if has_name(s, n) {
            let i = choose|i: int| 0 <= i < s.len() && #[trigger] s[i].spec_name() == n;
            assert(t[i].spec_name() == n);
        }
    }
    assert(name_set(t) =~= name_set(s));
}

/// Finds the position of the item with the given name.
pub fn find_by_name<T: HasName>(v: &Vec<T>, name: &String) -> (r: Option<usize>)
    ensures
        match r {
            Some(i) => i < v@.len() && v@[i as int].spec_name() == name@,
            None => !has_name(v@, name@),
        },
{
    let mut i: usize = 0;
    while i < v.len()
        invariant
            i <= v@.len(),
            forall|k: int| 0 <= k < i ==> #[trigger] v@[k].spec_name() != name@,
        decreases v@.len() - i,
    {
        if *v[i].name_ref() == *name {
            return Some(i);
        }
        i = i + 1;
    }
    None
}

/// Finds the position at which an item with the given name would keep the items sorted.
pub fn insertion_position<T: HasName>(v: &Vec<T>, name: &String) -> (p: usize)
    requires
        names_sorted(v@),
        !has_name(v@, name@),
    ensures
        p <= v@.len(),
        forall|i: int| 0 <= i < p ==> lex_lt(#[trigger] v@[i].spec_name(), name@),
        forall|i: int| p <= i < v@.len() ==> lex_lt(name@, #[trigger] v@[i].spec_name()),
{
    let mut p: usize = 0;
    while p < v.len() && string_lt(v[p].name_ref(), name)
        invariant
            p <= v@.len(),
            forall|i: int| 0 <= i < p ==> lex_lt(#[trigger] v@[i].spec_name(), name@),
        decreases v@.len() - p,
    {
        p = p + 1;
    }
    proof {
        if p < v@.len() {
            assert(v@[p as int].spec_name() != name@);
            lemma_lex_lt_total(v@[p as int].spec_name(), name@);
            assert forall|i: int| p <= i < v@.len() implies lex_lt(name@, #[trigger] v@[i].spec_name()) by {
                if i > p {
                    lemma_lex_lt_transitive(name@, v@[p as int].spec_name(), v@[i].spec_name());
                }
            }
        }
    }
    p
}

/// Sorted names come in strictly increasing order, so an item before another one has a
/// smaller name and cannot have the same name.
pub proof fn lemma_sorted_lt<T: HasName>(s: Seq<T>, i: int, j: int)
    requires
        names_sorted(s),
        0 <= i < j < s.len(),
    ensures
        lex_lt(s[i].spec_name(), s[j].spec_name()),
        !lex_lt(s[j].spec_name(), s[i].spec_name()),
        s[i].spec_name() != s[j].spec_name(),
{
    lemma_lex_lt_asymmetric(s[i].spec_name(), s[j].spec_name());
    lemma_lex_lt_irreflexive(s[i].spec_name());
}

} // verus!

verus! {

/// The names of a sequence of strings, as a set, are the strings themselves.
pub proof fn lemma_string_names(v: Seq<String>)
    ensures
        v.map_values(|e: String| e@).to_set() == name_set(v),
{
    let names = v.map_values(|e: String| e@);
    assert forall|n: Seq<char>| #[trigger] names.to_set().contains(n) <==> name_set(v).contains(n) by {
        if names.to_set().contains(n) {
            let i = choose|i: int| 0 <= i < names.len() && names[i] == n;
            assert(v[i].spec_name() == n);
        }
        if name_set(v).contains(n) {
            let i = choose|i: int| 0 <= i < v.len() && #[trigger] v[i].spec_name() == n;
            assert(names[i] == n);
        }
    }
    assert(names.to_set() =~= name_set(v));
}

/// No names in an empty sequence.
pub proof fn lemma_empty_names<T: HasName>(s: Seq<T>)
    requires
        s.len() == 0,
    ensures
        name_set(s).len() == 0,
        name_set(s) == Set::<Seq<char>>::empty(),
{
    assert(name_set(s) =~= Set::<Seq<char>>::empty());
}

/// A sequence with an item has a name.
pub proof fn lemma_nonempty_names<T: HasName>(s: Seq<T>)
    requires
        s.len() > 0,
    ensures
        name_set(s).len() != 0,
{
    lemma_name_set_finite(s);
    assert(name_set(s).contains(s[0].spec_name()));
}

} // verus!

verus! {

/// The names of the first `j + 1` items are those of the first `j` items and the name of item
/// `j`.
pub proof fn lemma_name_set_take_step<T: HasName>(s: Seq<T>, j: int)
    requires
        0 <= j < s.len(),
    ensures
        name_set(s.take(j + 1)) == name_set(s.take(j)).insert(s[j].spec_name()),
{
    assert forall|n: Seq<char>| #[trigger] name_set(s.take(j + 1)).contains(n) <==> name_set(s.take(j)).insert(s[j].spec_name()).contains(n) by {
        if name_set(s.take(j + 1)).contains(n) {
            let i = choose|i: int| 0 <= i < s.take(j + 1).len() && #[trigger] s.take(j + 1)[i].spec_name() == n;
            if i < j {
                assert(s.take(j)[i] == s[i]);
            }
        }
        if name_set(s.take(j)).contains(n) {
            let i = choose|i: int| 0 <= i < s.take(j).len() && #[trigger] s.take(j)[i].spec_name() == n;
            assert(s.take(j + 1)[i] == s[i]);
        }
        if n == s[j].spec_name() {
            assert(s.take(j + 1)[j] == s[j]);
        }
    }
    assert(name_set(s.take(j + 1)) =~= name_set(s.take(j)).insert(s[j].spec_name()));
}

/// No names before the first item; all names up to the last one.
pub proof fn lemma_name_set_take_ends<T: HasName>(s: Seq<T>)
    ensures
        name_set(s.take(0)) == Set::<Seq<char>>::empty(),
        name_set(s.take(s.len() as int)) == name_set(s),
{
    assert(name_set(s.take(0)) =~= Set::<Seq<char>>::empty());
    assert(s.take(s.len() as int) =~= s);
}

} // verus!
