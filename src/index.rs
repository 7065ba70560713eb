//! Ensuring a search index: create it when absent, accept it when its
//! primary key is the expected one, refuse it otherwise.
use vstd::prelude::*;

verus! {

/// What to do about an index.
#[derive(Clone, Copy, PartialEq, Eq, Structural, Debug)]
pub enum IndexPlan {
    /// The index is absent: create it with the primary key and wait for that.
    Create,
    /// The index exists with the expected primary key: nothing to do.
    Keep,
}

/// An existing index whose primary key is not the expected one.
#[derive(Clone, PartialEq, Eq, Debug)]
pub struct PrimaryKeyMismatch {
    pub index: String,
}

/// The plan for an index whose lookup gave `found`: `None` when the index
/// is absent, else the primary key it declares, if any. `None` is the error.
pub open spec fn index_plan(found: Option<Option<Seq<char>>>, primary_key: Seq<char>) -> Option<
    IndexPlan,
> {
    match found {
        None => Some(IndexPlan::Create),
        Some(Some(k)) => if k == primary_key {
            Some(IndexPlan::Keep)
        } else {
            None
        },
        Some(None) => None,
    }
}

/// The view of a lookup result.
pub open spec fn found_view(found: Option<Option<String>>) -> Option<Option<Seq<char>>> {
    match found {
        None => None,
        Some(None) => Some(None),
        Some(Some(k)) => Some(Some(k@)),
    }
}

/// The lookup result for an index after `plan` was carried out on it.
pub open spec fn after_plan(
    found: Option<Option<Seq<char>>>,
    primary_key: Seq<char>,
    plan: IndexPlan,
) -> Option<Option<Seq<char>>> {
    match plan {
        IndexPlan::Create => Some(Some(primary_key)),
        IndexPlan::Keep => found,
    }
}

/// Decides how to ensure index `index_name` with `primary_key`, given what
/// looking it up gave.
pub fn create_index(index_name: &String, found: Option<Option<String>>, primary_key: &String) -> (r:
    Result<IndexPlan, PrimaryKeyMismatch>)
    ensures
        r.is_ok() == index_plan(found_view(found), primary_key@).is_some(),
        r.is_ok() ==> Some(r->Ok_0) == index_plan(found_view(found), primary_key@),
        r.is_err() ==> r->Err_0.index@ == index_name@,
{
    match found {
        None => Ok(IndexPlan::Create),
        Some(Some(k)) => {
            if k == *primary_key {
                Ok(IndexPlan::Keep)
            } else {
                Err(PrimaryKeyMismatch { index: index_name.clone() })
            }
        },
        Some(None) => Err(PrimaryKeyMismatch { index: index_name.clone() }),
    }
}

/// Ensuring an index twice with the same primary key does nothing the second
/// time, and ensuring an index that exists with another primary key fails.
pub proof fn lemma_ensure_index_idempotent(
    found: Option<Option<Seq<char>>>,
    primary_key: Seq<char>,
    other_key: Seq<char>,
)
    requires
        other_key != primary_key,
    ensures
        index_plan(found, primary_key) matches Some(p) ==> index_plan(
            after_plan(found, primary_key, p),
            primary_key,
        ) == Some(IndexPlan::Keep),
        index_plan(Some(Some(primary_key)), other_key).is_none(),
{
}

} // verus!
