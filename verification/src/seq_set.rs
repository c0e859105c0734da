//! Small lemmas relating sequences to the sets and maps they represent.

use vstd::prelude::*;

verus! {

/// No two positions of `s` hold the same element.
pub open spec fn distinct<A>(s: Seq<A>) -> bool {
    forall|i: int, j: int| 0 <= i < j < s.len() ==> s[i] != s[j]
}

/// Appending an element adds exactly that element to the set of elements.
pub proof fn lemma_to_set_push<A>(s: Seq<A>, v: A)
    ensures
        s.push(v).to_set() == s.to_set().insert(v),
{
    assert forall|a: A| s.push(v).to_set().contains(a) implies s.to_set().insert(v).contains(
        a,
    ) by {
        let i = choose|i: int| 0 <= i < s.push(v).len() && s.push(v)[i] == a;
        if i < s.len() {
            assert(s[i] == a);
        }
    }
    assert forall|a: A| s.to_set().insert(v).contains(a) implies s.push(v).to_set().contains(
        a,
    ) by {
        if s.contains(a) {
            let i = choose|i: int| 0 <= i < s.len() && s[i] == a;
            assert(s.push(v)[i] == a);
        } else {
            assert(s.push(v)[s.len() as int] == a);
        }
    }
    assert(s.push(v).to_set() =~= s.to_set().insert(v));
}

/// Removing position `i` of a duplicate-free sequence removes exactly `s[i]`
/// from the set of elements.
pub proof fn lemma_to_set_remove<A>(s: Seq<A>, i: int)
    requires
        0 <= i < s.len(),
        distinct(s),
    ensures
        s.remove(i).to_set() == s.to_set().remove(s[i]),
{
    let t = s.remove(i);
    assert forall|a: A| t.to_set().contains(a) implies s.to_set().remove(s[i]).contains(a) by {
        let k = choose|k: int| 0 <= k < t.len() && t[k] == a;
        if k < i {
            assert(s[k] == a);
        } else {
            assert(s[k + 1] == a);
        }
    }
    assert forall|a: A| s.to_set().remove(s[i]).contains(a) implies t.to_set().contains(a) by {
        let k = choose|k: int| 0 <= k < s.len() && s[k] == a;
        assert(k != i);
        if k < i {
            assert(t[k] == a);
        } else {
            assert(t[k - 1] == a);
        }
    }
    assert(t.to_set() =~= s.to_set().remove(s[i]));
}

/// Inserting an element that is already present leaves a set unchanged.
pub proof fn lemma_insert_member<A>(t: Set<A>, v: A)
    requires
        t.contains(v),
    ensures
        t.insert(v) == t,
{
    assert(t.insert(v) =~= t);
}

/// Removing an element that is absent leaves a set unchanged.
pub proof fn lemma_remove_absent<A>(t: Set<A>, v: A)
    requires
        !t.contains(v),
    ensures
        t.remove(v) == t,
{
    assert(t.remove(v) =~= t);
}

} // verus!
