//! Results in a row: all the values, or the first failure.

use vstd::prelude::*;

verus! {

/// The place of the first failure at or after `i`; the length where none
/// follows.
pub open spec fn first_err<T, E>(rs: Seq<Result<T, E>>, i: int) -> int
    decreases rs.len() - i,
{
    if 0 <= i < rs.len() && rs[i] is Ok {
        first_err(rs, i + 1)
    } else {
        i
    }
}

/// The values of all the results in order, where none is a failure; else the
/// first failure.
pub open spec fn collect<T, E>(rs: Seq<Result<T, E>>) -> Result<Seq<T>, E> {
    let k = first_err(rs, 0);
    if k < rs.len() {
        Err(rs[k]->Err_0)
    } else {
        Ok(Seq::new(rs.len(), |i: int| rs[i]->Ok_0))
    }
}

/// Past successes, the first failure is the same.
pub proof fn lemma_first_err<T, E>(rs: Seq<Result<T, E>>, i: int, j: int)
    requires
        0 <= i <= j <= rs.len(),
        forall|k: int| i <= k < j ==> (#[trigger] rs[k]) is Ok,
    ensures
        first_err(rs, i) == first_err(rs, j),
    decreases j - i,
{
    if i < j {
        lemma_first_err(rs, i + 1, j);
    }
}

/// After successes only, a failure is what `collect` gives.
pub proof fn lemma_collect_err<T, E>(rs: Seq<Result<T, E>>, k: int)
    requires
        0 <= k < rs.len(),
        forall|j: int| 0 <= j < k ==> (#[trigger] rs[j]) is Ok,
        rs[k] is Err,
    ensures
        collect(rs) == Err::<Seq<T>, E>(rs[k]->Err_0),
{
    lemma_first_err(rs, 0, k);
}

/// Where all succeed, `collect` gives their values.
pub proof fn lemma_collect_ok<T, E>(rs: Seq<Result<T, E>>)
    requires
        forall|j: int| 0 <= j < rs.len() ==> (#[trigger] rs[j]) is Ok,
    ensures
        collect(rs) == Ok::<Seq<T>, E>(Seq::new(rs.len(), |i: int| rs[i]->Ok_0)),
{
    lemma_first_err(rs, 0, rs.len() as int);
}

/// What `collect` gives says which results succeeded.
pub proof fn lemma_collect<T, E>(rs: Seq<Result<T, E>>)
    ensures
        match collect(rs) {
            Ok(values) => {
                &&& values.len() == rs.len()
                &&& forall|j: int| 0 <= j < rs.len() ==> #[trigger] rs[j] == Ok::<T, E>(values[j])
            },
            Err(e) => exists|k: int|
                {
                    &&& 0 <= k < rs.len()
                    &&& #[trigger] rs[k] == Err::<T, E>(e)
                    &&& forall|j: int| 0 <= j < k ==> (#[trigger] rs[j]) is Ok
                },
        },
{
    lemma_first_err_bounds(rs, 0);
}

/// The first failure at or after `i` lies at or after `i`, successes only
/// lie between, and a failure lies there.
pub proof fn lemma_first_err_bounds<T, E>(rs: Seq<Result<T, E>>, i: int)
    requires
        0 <= i <= rs.len(),
    ensures
        i <= first_err(rs, i) <= rs.len(),
        forall|j: int| i <= j < first_err(rs, i) ==> (#[trigger] rs[j]) is Ok,
        first_err(rs, i) < rs.len() ==> rs[first_err(rs, i)] is Err,
    decreases rs.len() - i,
{
    if i < rs.len() && rs[i] is Ok {
        lemma_first_err_bounds(rs, i + 1);
    }
}

} // verus!
