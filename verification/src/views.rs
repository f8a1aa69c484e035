//! Lemmas relating `Vec` operations to the deep views the contracts of this
//! crate are stated over.

use vstd::prelude::*;

verus! {

/// Pushing onto a vector pushes the element's deep view onto the deep view.
pub proof fn lemma_push_deep_view<T: DeepView>(v1: Vec<T>, v2: Vec<T>, t: T)
    requires
        v2@ == v1@.push(t),
    ensures
        v2.deep_view() == v1.deep_view().push(t.deep_view()),
{
    assert(v2.deep_view() =~= v1.deep_view().push(t.deep_view()));
}

/// Popping the last element drops the last element of the deep view.
pub proof fn lemma_drop_last_deep_view<T: DeepView>(v1: Vec<T>, v2: Vec<T>)
    requires
        v1@.len() > 0,
        v2@ == v1@.drop_last(),
    ensures
        v2.deep_view() == v1.deep_view().drop_last(),
{
    assert(v2.deep_view() =~= v1.deep_view().drop_last());
}

/// Concatenating vectors concatenates their deep views.
pub proof fn lemma_concat_deep_view<T: DeepView>(v1: Vec<T>, v2: Vec<T>, v3: Vec<T>)
    requires
        v3@ == v1@ + v2@,
    ensures
        v3.deep_view() == v1.deep_view() + v2.deep_view(),
{
    assert(v3.deep_view() =~= v1.deep_view() + v2.deep_view());
}

/// Pushing onto a sequence inserts the element into its set of values.
pub proof fn lemma_to_set_push<T>(s1: Seq<T>, s2: Seq<T>, x: T)
    requires
        s2 == s1.push(x),
    ensures
        s2.to_set() == s1.to_set().insert(x),
{
    assert forall|y: T| s2.to_set().contains(y) implies s1.to_set().insert(x).contains(y) by {
        let i = choose|i: int| 0 <= i < s2.len() && s2[i] == y;
        if i < s1.len() {
            assert(s1[i] == y);
        }
    }
    assert forall|y: T| s1.to_set().insert(x).contains(y) implies s2.to_set().contains(y) by {
        if s1.to_set().contains(y) {
            let i = choose|i: int| 0 <= i < s1.len() && s1[i] == y;
            assert(s2[i] == y);
        } else {
            assert(s2[s1.len() as int] == y);
        }
    }
    assert(s2.to_set() =~= s1.to_set().insert(x));
}

/// Equal shallow views give equal deep views.
pub proof fn lemma_eq_deep_view<T: DeepView>(v1: Vec<T>, v2: Vec<T>)
    requires
        v1@ == v2@,
    ensures
        v1.deep_view() == v2.deep_view(),
{
    assert(v1.deep_view() =~= v2.deep_view());
}

} // verus!
