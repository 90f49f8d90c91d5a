//! Per-testcase tallies of outcomes.
use crate::result::{EvalResult, EvalResults};
use vstd::prelude::*;

verus! {

/// Tallies of one testcase's variants, the baseline included.
#[derive(Clone, Copy, Debug, PartialEq, Eq, Structural)]
pub struct EvalCounter {
    pub idx: usize,
    pub variant_count: usize,
    pub tp_count: usize,
    pub fn_count: usize,
    pub pos_err_count: usize,
    pub tn_count: usize,
    pub fp_count: usize,
    pub neg_err_count: usize,
    pub robust_count: usize,
}

impl EvalCounter {
    /// Every variant counts once on the positive side; the negative side
    /// counts TN and FP only under a TP, and robust variants are exactly
    /// those TN.
    pub open spec fn wf(self) -> bool {
        &&& self.tp_count + self.fn_count + self.pos_err_count == self.variant_count
        &&& self.tn_count + self.fp_count <= self.tp_count
        &&& self.tn_count + self.fp_count + self.neg_err_count <= self.variant_count
        &&& self.robust_count == self.tn_count
    }

    /// The tallies after one more variant with outcome `res`.
    pub open spec fn counted(self, res: EvalResults) -> EvalCounter {
        let tp = res.0 == EvalResult::TP;
        EvalCounter {
            idx: self.idx,
            variant_count: (self.variant_count + 1) as usize,
            tp_count: if tp { (self.tp_count + 1) as usize } else { self.tp_count },
            fn_count: if res.0 == EvalResult::FN { (self.fn_count + 1) as usize } else { self.fn_count },
            pos_err_count: if res.0 == EvalResult::Error {
                (self.pos_err_count + 1) as usize
            } else {
                self.pos_err_count
            },
            tn_count: if tp && res.1 == EvalResult::TN { (self.tn_count + 1) as usize } else { self.tn_count },
            fp_count: if tp && res.1 == EvalResult::FP { (self.fp_count + 1) as usize } else { self.fp_count },
            neg_err_count: if res.1 == EvalResult::Error {
                (self.neg_err_count + 1) as usize
            } else {
                self.neg_err_count
            },
            robust_count: if res.robust() { (self.robust_count + 1) as usize } else { self.robust_count },
        }
    }

    /// The tallies of testcase `idx` before any variant.
    pub open spec fn zeroed(idx: usize) -> EvalCounter {
        EvalCounter {
            idx,
            variant_count: 0,
            tp_count: 0,
            fn_count: 0,
            pos_err_count: 0,
            tn_count: 0,
            fp_count: 0,
            neg_err_count: 0,
            robust_count: 0,
        }
    }

    /// All tallies zero.
    pub fn new(idx: usize) -> (r: Self)
        ensures
            r == EvalCounter::zeroed(idx),
            r.wf(),
    {
        EvalCounter {
            idx,
            variant_count: 0,
            tp_count: 0,
            fp_count: 0,
            pos_err_count: 0,
            fn_count: 0,
            tn_count: 0,
            neg_err_count: 0,
            robust_count: 0,
        }
    }

    /// Counts one variant with outcome `res`.
    pub fn count(&mut self, res: &EvalResults)
        requires
            old(self).wf(),
            res.valid(),
            old(self).variant_count < usize::MAX,
        ensures
            *final(self) == old(self).counted(*res),
            final(self).wf(),
    {
        self.variant_count += 1;
        match res.0 {
            EvalResult::TP => self.tp_count += 1,
            EvalResult::FN => self.fn_count += 1,
            _ => self.pos_err_count += 1,
        }
        match res.1 {
            EvalResult::Error => self.neg_err_count += 1,
            EvalResult::FP => {
                if let EvalResult::TP = res.0 {
                    self.fp_count += 1
                }
            },
            _ => {
                if let EvalResult::TP = res.0 {
                    self.tn_count += 1
                }
            },
        }
        if let EvalResults(EvalResult::TP, EvalResult::TN) = res {
            self.robust_count += 1;
        }
    }
}

/// Negative outcomes are judged only after recall: counting a variant moves
/// the FP or TN tally only when its positive outcome is TP, and no tallies
/// ever hold more FP and TN than TP.
pub proof fn lemma_recall_gating(c: EvalCounter, res: EvalResults)
    requires
        c.wf(),
        res.valid(),
        c.variant_count < usize::MAX,
    ensures
        c.counted(res).fp_count != c.fp_count ==> res.0 == EvalResult::TP,
        c.counted(res).tn_count != c.tn_count ==> res.0 == EvalResult::TP,
        c.counted(res).wf(),
        c.counted(res).tn_count + c.counted(res).fp_count <= c.counted(res).tp_count,
{
}

} // verus!
