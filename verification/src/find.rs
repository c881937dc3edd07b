//! Where something first occurs in a sequence.
use vstd::prelude::*;

verus! {

/// The first place of a sequence whose element satisfies a condition.
pub open spec fn first_where<A>(list: Seq<A>, wanted: spec_fn(A) -> bool) -> Option<int>
    decreases list.len(),
{
    if list.len() == 0 {
        None
    } else {
        match first_where(list.drop_last(), wanted) {
            Some(i) => Some(i),
            None => if wanted(list.last()) {
                Some(list.len() - 1)
            } else {
                None
            },
        }
    }
}

/// What it means to be the first, or that there is none.
pub proof fn first_where_is_first<A>(list: Seq<A>, wanted: spec_fn(A) -> bool)
    ensures
        match first_where(list, wanted) {
            Some(i) => {
                &&& 0 <= i < list.len()
                &&& wanted(list[i])
                &&& forall|j: int| 0 <= j < i ==> !wanted(#[trigger] list[j])
            },
            None => forall|j: int| 0 <= j < list.len() ==> !wanted(#[trigger] list[j]),
        },
    decreases list.len(),
{
    if list.len() > 0 {
        let front = list.drop_last();
        first_where_is_first(front, wanted);
        assert forall|j: int| 0 <= j < front.len() implies list[j] == #[trigger] front[j] by {}
        match first_where(front, wanted) {
            Some(i) => {
                assert forall|j: int| 0 <= j < i implies !wanted(#[trigger] list[j]) by {
                    assert(!wanted(front[j]));
                }
            },
            None => {
                assert forall|j: int| 0 <= j < list.len() - 1 implies !wanted(#[trigger] list[j]) by {
                    assert(!wanted(front[j]));
                }
            },
        }
    }
}

/// A place that is the first is the one that is found.
pub proof fn first_where_found<A>(list: Seq<A>, wanted: spec_fn(A) -> bool, i: int)
    requires
        0 <= i < list.len(),
        wanted(list[i]),
        forall|j: int| 0 <= j < i ==> !wanted(#[trigger] list[j]),
    ensures
        first_where(list, wanted) == Some(i),
{
    first_where_is_first(list, wanted);
}

/// Where no element will do, none is found.
pub proof fn first_where_missing<A>(list: Seq<A>, wanted: spec_fn(A) -> bool)
    requires
        forall|j: int| 0 <= j < list.len() ==> !wanted(#[trigger] list[j]),
    ensures
        first_where(list, wanted) is None,
{
    first_where_is_first(list, wanted);
}

} // verus!
