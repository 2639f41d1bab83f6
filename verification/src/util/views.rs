use vstd::prelude::*;

verus! {

/// The model of a result: the model of what it holds where it is `Ok`, and
/// the error as it is.
pub open spec fn result_view<T: DeepView, E>(r: Result<T, E>) -> Result<T::V, E> {
    match r {
        Ok(v) => Ok(v.deep_view()),
        Err(e) => Err(e),
    }
}

/// The model of a vector has the vector's length, and holds at each place
/// the model of what the vector holds there.
pub proof fn lemma_deep_view_index<T: DeepView>(v: Vec<T>)
    ensures
        v.deep_view().len() == v@.len(),
        forall|i: int| 0 <= i < v@.len() ==> #[trigger] v.deep_view()[i] == v@[i].deep_view(),
{
}

/// Pushing onto a vector pushes the item's model onto the vector's model.
pub proof fn lemma_deep_view_push<T: DeepView>(before: Vec<T>, after: Vec<T>, item: T)
    requires
        after@ == before@.push(item),
    ensures
        after.deep_view() == before.deep_view().push(item.deep_view()),
{
    assert(after.deep_view() =~= before.deep_view().push(item.deep_view()));
}

/// An empty vector has the empty model.
pub proof fn lemma_deep_view_empty<T: DeepView>(v: Vec<T>)
    requires
        v@.len() == 0,
    ensures
        v.deep_view() == Seq::<T::V>::empty(),
{
    assert(v.deep_view() =~= Seq::<T::V>::empty());
}

/// Vectors that hold the same items have the same model.
pub proof fn lemma_deep_view_same<T: DeepView>(a: Vec<T>, b: Vec<T>)
    requires
        a@ == b@,
    ensures
        a.deep_view() == b.deep_view(),
{
    assert(a.deep_view() =~= b.deep_view());
}

/// Inserting into a vector inserts the item's model into the vector's
/// model.
pub proof fn lemma_deep_view_insert<T: DeepView>(before: Vec<T>, after: Vec<T>, at: int, item: T)
    requires
        0 <= at <= before@.len(),
        after@ == before@.insert(at, item),
    ensures
        after.deep_view() == before.deep_view().insert(at, item.deep_view()),
{
    assert(after.deep_view() =~= before.deep_view().insert(at, item.deep_view()));
}

/// Removing from a vector removes from the vector's model.
pub proof fn lemma_deep_view_remove<T: DeepView>(before: Vec<T>, after: Vec<T>, at: int)
    requires
        0 <= at < before@.len(),
        after@ == before@.remove(at),
    ensures
        after.deep_view() == before.deep_view().remove(at),
{
    assert(after.deep_view() =~= before.deep_view().remove(at));
}

} // verus!
