//! The first error among the outcomes of a row of checks.

use crate::compilation_error::CompilationError;
use vstd::prelude::*;

verus! {

/// The first error among the outcomes of a row of checks, each of which
/// found an error or none.
pub open spec fn first_fault(faults: Seq<Option<CompilationError>>) -> Option<CompilationError>
    decreases faults.len(),
{
    if faults.len() == 0 {
        None
    } else if faults[0] is Some {
        faults[0]
    } else {
        first_fault(faults.drop_first())
    }
}

/// The first error is that of the first check that found one.
pub proof fn lemma_first_fault_at(faults: Seq<Option<CompilationError>>, k: int)
    requires
        0 <= k < faults.len(),
        faults[k] is Some,
        forall|j: int| 0 <= j < k ==> faults[j] is None,
    ensures
        first_fault(faults) == faults[k],
    decreases k,
{
    if k > 0 {
        assert(faults[0] is None);
        let rest = faults.drop_first();
        assert forall|j: int| 0 <= j < k - 1 implies rest[j] is None by {
            assert(rest[j] == faults[j + 1]);
        }
        lemma_first_fault_at(rest, k - 1);
    }
}

/// Where no check found an error there is no first error.
pub proof fn lemma_no_fault(faults: Seq<Option<CompilationError>>)
    requires
        forall|j: int| 0 <= j < faults.len() ==> faults[j] is None,
    ensures
        first_fault(faults) is None,
    decreases faults.len(),
{
    if faults.len() > 0 {
        assert(faults[0] is None);
        let rest = faults.drop_first();
        assert forall|j: int| 0 <= j < rest.len() implies rest[j] is None by {
            assert(rest[j] == faults[j + 1]);
        }
        lemma_no_fault(rest);
    }
}

/// Where there is no first error, no check found one.
pub proof fn lemma_no_fault_each(faults: Seq<Option<CompilationError>>, k: int)
    requires
        first_fault(faults) is None,
        0 <= k < faults.len(),
    ensures
        faults[k] is None,
    decreases k,
{
    if k > 0 {
        let rest = faults.drop_first();
        assert(rest[k - 1] == faults[k]);
        lemma_no_fault_each(rest, k - 1);
    }
}

} // verus!
