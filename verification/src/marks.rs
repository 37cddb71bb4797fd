//! Lists of flags, one per item of a scan, that say which items are still
//! awaited.

use vstd::prelude::*;

verus! {

/// How many flags of a list are set.
pub open spec fn count_marks(flags: Seq<bool>) -> nat
    decreases flags.len(),
{
    if flags.len() == 0 {
        0
    } else {
        count_marks(flags.drop_last()) + if flags.last() {
            1nat
        } else {
            0nat
        }
    }
}

/// No more flags are set than there are.
pub proof fn lemma_count_bound(flags: Seq<bool>)
    ensures
        count_marks(flags) <= flags.len(),
    decreases flags.len(),
{
    if flags.len() > 0 {
        lemma_count_bound(flags.drop_last());
    }
}

/// Changing one flag changes the count by that flag alone.
pub proof fn lemma_count_update(flags: Seq<bool>, at: int, flag: bool)
    requires
        0 <= at < flags.len(),
    ensures
        count_marks(flags.update(at, flag)) + (if flags[at] {
            1nat
        } else {
            0nat
        }) == count_marks(flags) + (if flag {
            1nat
        } else {
            0nat
        }),
    decreases flags.len(),
{
    let front = flags.drop_last();
    if at == flags.len() - 1 {
        assert(flags.update(at, flag).drop_last() == front);
    } else {
        lemma_count_update(front, at, flag);
        assert(flags.update(at, flag).drop_last() == front.update(at, flag));
    }
}

/// Where no flag is set the count is zero, and where all are set it is the
/// length.
pub proof fn lemma_count_uniform(flags: Seq<bool>)
    ensures
        (forall|p: int| 0 <= p < flags.len() ==> !flags[p]) ==> count_marks(flags) == 0,
        (forall|p: int| 0 <= p < flags.len() ==> flags[p]) ==> count_marks(flags) == flags.len(),
    decreases flags.len(),
{
    if flags.len() > 0 {
        lemma_count_uniform(flags.drop_last());
    }
}

} // verus!
