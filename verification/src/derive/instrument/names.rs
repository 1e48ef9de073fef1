//! Lists of names read as sets.

use vstd::prelude::*;

verus! {

/// The names that occur in `list`.
pub open spec fn names(list: Seq<String>) -> Set<Seq<char>> {
    Set::new(|name: Seq<char>| exists|i: int| 0 <= i < list.len() && #[trigger] list[i]@ == name)
}

/// No name occurs twice in `list`.
pub open spec fn distinct_names(list: Seq<String>) -> bool {
    forall|i: int, j: int|
        0 <= i < list.len() && 0 <= j < list.len() && i != j ==> #[trigger] list[i]@
            != #[trigger] list[j]@
}

/// Whether `name` occurs in `list`.
pub fn has_name(list: &Vec<String>, name: &String) -> (found: bool)
    ensures
        found == names(list@).contains(name@),
{
    let mut i: usize = 0;
    while i < list.len()
        invariant
            i <= list.len(),
            forall|j: int| 0 <= j < i ==> #[trigger] list@[j]@ != name@,
        decreases list.len() - i,
    {
        if list[i] == *name {
            return true;
        }
        i += 1;
    }
    false
}

/// Adds `name` to `list` unless it occurs there.
pub fn insert_name(list: &mut Vec<String>, name: &String)
    ensures
        distinct_names(old(list)@) ==> distinct_names(final(list)@),
        names(final(list)@) == names(old(list)@).insert(name@),
        final(list)@.len() == old(list)@.len() + if names(old(list)@).contains(name@) {
            0int
        } else {
            1int
        },
{
    if !has_name(list, name) {
        list.push(name.clone());
        proof {
            let before = old(list)@;
            let after = list@;
            assert forall|n: Seq<char>| names(after).contains(n) <==> names(before).insert(
                name@,
            ).contains(n) by {
                if names(after).contains(n) {
                    let i = choose|i: int| 0 <= i < after.len() && #[trigger] after[i]@ == n;
                    if i < before.len() {
                        assert(before[i]@ == n);
                    }
                }
                if names(before).contains(n) {
                    let i = choose|i: int| 0 <= i < before.len() && #[trigger] before[i]@ == n;
                    assert(after[i]@ == n);
                }
                if n == name@ {
                    assert(after[before.len() as int]@ == n);
                }
            }
            assert(names(after) =~= names(before).insert(name@));
            assert forall|i: int, j: int|
                distinct_names(before) && 0 <= i < after.len() && 0 <= j < after.len() && i
                    != j implies #[trigger] after[i]@ != #[trigger] after[j]@ by {
                if i < before.len() && j < before.len() {
                    assert(before[i]@ != before[j]@);
                } else if i < before.len() {
                    assert(before[i]@ == after[i]@);
                } else {
                    assert(before[j]@ == after[j]@);
                }
            }
        }
    } else {
        assert(names(list@) =~= names(list@).insert(name@));
    }
}

/// The names of `list`, each once, in the order in which they first occur.
pub fn distinct_copy(list: &Vec<String>) -> (copy: Vec<String>)
    ensures
        distinct_names(copy@),
        names(copy@) == names(list@),
{
    let mut copy: Vec<String> = Vec::new();
    let mut i: usize = 0;
    assert(names(copy@) =~= names(list@.take(0)));
    while i < list.len()
        invariant
            i <= list.len(),
            distinct_names(copy@),
            names(copy@) == names(list@.take(i as int)),
        decreases list.len() - i,
    {
        insert_name(&mut copy, &list[i]);
        proof {
            lemma_names_take(list@, i as int);
        }
        i += 1;
    }
    assert(list@.take(list.len() as int) =~= list@);
    copy
}

/// The names that occur in both `left` and `right`, each once.
pub fn common_names(left: &Vec<String>, right: &Vec<String>) -> (both: Vec<String>)
    ensures
        distinct_names(both@),
        names(both@) == names(left@).intersect(names(right@)),
{
    let mut both: Vec<String> = Vec::new();
    let mut i: usize = 0;
    assert(names(both@) =~= names(left@.take(0)).intersect(names(right@)));
    while i < left.len()
        invariant
            i <= left.len(),
            distinct_names(both@),
            names(both@) == names(left@.take(i as int)).intersect(names(right@)),
        decreases left.len() - i,
    {
        proof {
            lemma_names_take(left@, i as int);
        }
        if has_name(right, &left[i]) {
            insert_name(&mut both, &left[i]);
            assert(names(both@) =~= names(left@.take(i + 1)).intersect(names(right@)));
        } else {
            assert(names(both@) =~= names(left@.take(i + 1)).intersect(names(right@)));
        }
        i += 1;
    }
    assert(left@.take(left.len() as int) =~= left@);
    both
}

/// One more element in the prefix adds its name.
pub proof fn lemma_names_take(list: Seq<String>, i: int)
    requires
        0 <= i < list.len(),
    ensures
        names(list.take(i + 1)) == names(list.take(i)).insert(list[i]@),
{
    let shorter = list.take(i);
    let longer = list.take(i + 1);
    assert forall|n: Seq<char>| names(longer).contains(n) <==> names(shorter).insert(
        list[i]@,
    ).contains(n) by {
        if names(longer).contains(n) {
            let k = choose|k: int| 0 <= k < longer.len() && #[trigger] longer[k]@ == n;
            if k < i {
                assert(shorter[k]@ == n);
            }
        }
        if names(shorter).contains(n) {
            let k = choose|k: int| 0 <= k < shorter.len() && #[trigger] shorter[k]@ == n;
            assert(longer[k]@ == n);
        }
        if n == list[i]@ {
            assert(longer[i]@ == n);
        }
    }
    assert(names(longer) =~= names(shorter).insert(list[i]@));
}

/// A list without names has the empty set of names, and a list with an
/// element has that element's name.
pub proof fn lemma_names_empty(list: Seq<String>)
    ensures
        list.len() == 0 <==> names(list) == Set::<Seq<char>>::empty(),
{
    if list.len() == 0 {
        assert(names(list) =~= Set::<Seq<char>>::empty());
    } else {
        assert(list[0]@ == list[0]@);
        assert(names(list).contains(list[0]@));
    }
}

} // verus!
