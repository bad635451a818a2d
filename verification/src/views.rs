//! Facts about the deep view of a vector, used wherever a loop fills one.

use vstd::prelude::*;

verus! {

/// Pushing an element onto a vector pushes its deep view onto the vector's.
pub proof fn lemma_deep_view_push<T: DeepView>(before: Vec<T>, after: Vec<T>, last: T)
    requires
        after@ == before@.push(last),
    ensures
        after.deep_view() == before.deep_view().push(last.deep_view()),
{
    assert(after.deep_view().len() == before.deep_view().len() + 1);
    assert forall|j: int| 0 <= j < after.deep_view().len() implies after.deep_view()[j]
        == before.deep_view().push(last.deep_view())[j] by {
        if j < before@.len() {
            assert(after@[j] == before@[j]);
        } else {
            assert(after@[j] == last);
        }
    }
    assert(after.deep_view() =~= before.deep_view().push(last.deep_view()));
}

/// The deep view of a vector at an index is the deep view of its element.
pub proof fn lemma_deep_view_index<T: DeepView>(v: Vec<T>, i: int)
    requires
        0 <= i < v@.len(),
    ensures
        v.deep_view().len() == v@.len(),
        v.deep_view()[i] == v@[i].deep_view(),
{
}

/// A sequence cut after `i + 1` elements is the sequence cut after `i`, with
/// the element at `i` pushed.
pub proof fn lemma_take_push<A>(s: Seq<A>, i: int)
    requires
        0 <= i < s.len(),
    ensures
        s.take(i + 1) == s.take(i).push(s[i]),
        s.take(0) == Seq::<A>::empty(),
        s.take(s.len() as int) == s,
{
    assert(s.take(i + 1) =~= s.take(i).push(s[i]));
    assert(s.take(0) =~= Seq::<A>::empty());
    assert(s.take(s.len() as int) =~= s);
}

} // verus!
