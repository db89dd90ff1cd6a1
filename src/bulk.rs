use vstd::prelude::*;

verus! {

/// How many of a batch's independent operations succeeded and failed.
#[derive(Clone, Copy, Debug, PartialEq, Eq, Structural)]
pub struct BulkReport {
    pub ok: usize,
    pub fail: usize,
}

pub open spec fn count_true(s: Seq<bool>) -> nat
    decreases s.len(),
{
    if s.len() == 0 {
        0
    } else {
        count_true(s.drop_last()) + if s.last() {
            1nat
        } else {
            0nat
        }
    }
}

/// Counts the outcomes of a batch whose items were applied one by one, a failure never
/// undoing or stopping the others.
pub fn tally(outcomes: &Vec<bool>) -> (r: BulkReport)
    ensures
        r.ok == count_true(outcomes@),
        r.ok + r.fail == outcomes@.len(),
{
    let mut ok: usize = 0;
    let mut fail: usize = 0;
    let mut i: usize = 0;
    assert(outcomes@.subrange(0, 0) =~= Seq::<bool>::empty());
    while i < outcomes.len()
        invariant
            i <= outcomes.len(),
            ok == count_true(outcomes@.subrange(0, i as int)),
            ok + fail == i,
        decreases outcomes.len() - i,
    {
        assert(outcomes@.subrange(0, i + 1).drop_last() =~= outcomes@.subrange(0, i as int));
        if outcomes[i] {
            ok += 1;
        } else {
            fail += 1;
        }
        i += 1;
    }
    assert(outcomes@.subrange(0, outcomes.len() as int) =~= outcomes@);
    BulkReport { ok, fail }
}

} // verus!
