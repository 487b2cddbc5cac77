//! Lists of names (of ports, of subscriptions) and what is asked of them.

use vstd::prelude::*;

verus! {

/// The test for a name other than `name`.
pub open spec fn other_than(name: Seq<char>) -> spec_fn(Seq<char>) -> bool {
    |other: Seq<char>| other != name
}

/// Whether `name` is one of `names`.
pub fn contains_name(names: &Vec<String>, name: &String) -> (found: bool)
    ensures
        found == names.deep_view().contains(name@),
{
    let mut i: usize = 0;
    while i < names.len()
        invariant
            i <= names.len(),
            forall|k: int| 0 <= k < i ==> names.deep_view()[k] != name@,
        decreases names.len() - i,
    {
        if names[i] == *name {
            assert(names.deep_view()[i as int] == name@);
            return true;
        }
        i += 1;
    }
    false
}

/// Add `name` to `names` unless it is there already.
pub fn insert_name(names: &mut Vec<String>, name: &String)
    ensures
        final(names).deep_view() == if old(names).deep_view().contains(name@) {
            old(names).deep_view()
        } else {
            old(names).deep_view().push(name@)
        },
        final(names).deep_view().to_set() == old(names).deep_view().to_set().insert(name@),
        old(names).deep_view().no_duplicates() ==> final(names).deep_view().no_duplicates(),
{
    if !contains_name(names, name) {
        names.push(name.clone());
        proof {
            assert(names.deep_view() =~= old(names).deep_view().push(name@));
            old(names).deep_view().lemma_push_to_set_commute(name@);
        }
    } else {
        assert(names.deep_view().to_set() =~= old(names).deep_view().to_set().insert(name@));
    }
}

/// Take every occurrence of `name` out of `names`; the others keep their
/// order.
pub fn remove_name(names: &mut Vec<String>, name: &String)
    ensures
        final(names).deep_view() == old(names).deep_view().filter(other_than(name@)),
        final(names).deep_view().to_set() == old(names).deep_view().to_set().remove(name@),
        old(names).deep_view().no_duplicates() ==> final(names).deep_view().no_duplicates(),
{
    let ghost keep = other_than(name@);
    let ghost before = names.deep_view();
    let mut kept: Vec<String> = Vec::new();
    let mut i: usize = 0;
    assert(before.take(0).filter(keep) =~= Seq::<Seq<char>>::empty()) by {
        reveal(Seq::filter);
    }
    while i < names.len()
        invariant
            i <= names.len(),
            before == names.deep_view(),
            keep == other_than(name@),
            kept.deep_view() == before.take(i as int).filter(keep),
            before.no_duplicates() ==> kept.deep_view().no_duplicates(),
            forall|a: int|
                0 <= a < kept.len() ==> before.take(i as int).contains(#[trigger] kept.deep_view()[a]),
        decreases names.len() - i,
    {
        proof {
            assert(before.take(i + 1).drop_last() =~= before.take(i as int));
            reveal(Seq::filter);
        }
        let ghost earlier = kept.deep_view();
        if names[i] != *name {
            kept.push(names[i].clone());
            proof {
                assert(kept.deep_view() =~= earlier.push(before[i as int]));
                if before.no_duplicates() {
                    assert forall|a: int, b: int|
                        0 <= a < kept.len() && 0 <= b < kept.len() && a != b implies kept.deep_view()[a]
                        != kept.deep_view()[b] by {
                        if a < earlier.len() && b == earlier.len() {
                            let k = choose|k: int|
                                0 <= k < i && before.take(i as int)[k] == earlier[a];
                            assert(before[k] != before[i as int]);
                        }
                        if b < earlier.len() && a == earlier.len() {
                            let k = choose|k: int|
                                0 <= k < i && before.take(i as int)[k] == earlier[b];
                            assert(before[k] != before[i as int]);
                        }
                    }
                }
            }
        }
        proof {
            assert forall|a: int| 0 <= a < kept.len() implies before.take(i + 1).contains(
                #[trigger] kept.deep_view()[a],
            ) by {
                if a < earlier.len() {
                    let k = choose|k: int| 0 <= k < i && before.take(i as int)[k] == earlier[a];
                    assert(before.take(i + 1)[k] == earlier[a]);
                } else {
                    assert(before.take(i + 1)[i as int] == kept.deep_view()[a]);
                }
            }
        }
        i += 1;
    }
    assert(before.take(i as int) =~= before);
    *names = kept;
    proof {
        broadcast use vstd::seq_lib::group_filter_ensures;
        assert forall|other: Seq<char>|
            before.filter(keep).contains(other) <==> before.contains(other) && other
                != name@ by {
            if before.filter(keep).contains(other) {
                let k = choose|k: int|
                    0 <= k < before.filter(keep).len() && before.filter(keep)[k] == other;
                before.lemma_filter_contains_rev(keep, other);
                before.lemma_filter_pred(keep, k);
            }
            if before.contains(other) && other != name@ {
                let k = choose|k: int| 0 <= k < before.len() && before[k] == other;
                assert(keep(before[k]));
            }
        }
        assert(before.filter(keep).to_set() =~= before.to_set().remove(name@));
    }
}

/// A copy of `names`.
pub fn clone_names(names: &Vec<String>) -> (copy: Vec<String>)
    ensures
        copy.deep_view() == names.deep_view(),
{
    let copy = names.clone();
    assert(copy.deep_view() =~= names.deep_view());
    copy
}

} // verus!
