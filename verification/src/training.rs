//! When feedback triggers a fine-tune.

use vstd::prelude::*;

verus! {

/// Feedback pairs between two fine-tunes.
pub const FEEDBACK_PERIOD: usize = 50;

/// A fine-tune is due after every 50 feedback pairs: exactly when the count
/// is a positive multiple of 50.
pub fn should_train(feedback_count: usize) -> (res: bool)
    ensures
        res == (feedback_count > 0 && feedback_count % 50 == 0),
        res <==> exists|k: int| k >= 1 && feedback_count == #[trigger] (k * 50),
{
    let r = feedback_count > 0 && feedback_count % FEEDBACK_PERIOD == 0;
    proof {
        if r {
            let k = feedback_count as int / 50;
            assert(feedback_count == k * 50);
        }
        if exists|k: int| k >= 1 && feedback_count == #[trigger] (k * 50) {
            let k = choose|k: int| k >= 1 && feedback_count == #[trigger] (k * 50);
            vstd::arithmetic::div_mod::lemma_mod_multiples_basic(k, 50);
        }
    }
    r
}

/// A fine-tune is due after a batch of feedback that took the count from
/// `before` to `after` exactly when the batch reached some positive multiple of
/// 50: every 50 pairs train once, however the pairs were grouped.
pub fn training_due_between(before: usize, after: usize) -> (res: bool)
    requires
        before <= after,
    ensures
        res <==> exists|k: int| k >= 1 && before < #[trigger] (k * 50) <= after,
        before + 1 == after ==> res == (after > 0 && after % 50 == 0),
{
    let r = after / FEEDBACK_PERIOD > before / FEEDBACK_PERIOD;
    proof {
        let k = after as int / 50;
        if r {
            assert(k >= 1);
            assert(k * 50 <= after) by (nonlinear_arith)
                requires
                    k == after as int / 50,
                    after >= 0,
            ;
            assert(before < k * 50) by (nonlinear_arith)
                requires
                    k > before as int / 50,
                    before >= 0,
            ;
        }
        if exists|j: int| j >= 1 && before < #[trigger] (j * 50) <= after {
            let j = choose|j: int| j >= 1 && before < #[trigger] (j * 50) <= after;
            assert(before as int / 50 < j) by (nonlinear_arith)
                requires
                    before < j * 50,
                    before >= 0,
            ;
            assert(j <= after as int / 50) by (nonlinear_arith)
                requires
                    j * 50 <= after,
                    j >= 1,
            ;
        }
        if before + 1 == after {
            if after % 50 == 0 && after > 0 {
                assert(after as int == (after as int / 50) * 50);
            }
        }
    }
    r
}

} // verus!
