//! Evaluation of a bug-finding tool against a catalog of vulnerability
//! patterns, by growing trees of semantically equivalent program variants.
pub mod config;
pub mod counter;
pub mod ir;
pub mod result;
pub mod search;
pub mod summary;
pub mod text;
pub mod tree;

use crate::config::{copy_flows, indices_of_type, Config};
use crate::counter::EvalCounter;
use crate::ir::expr_id;
use crate::result::{failure_tag, EvalResults};
use crate::search::{all_below, Search};
use vstd::prelude::*;

verus! {

/// Vulnerability kinds that testcases can be selected by.
#[derive(Clone, Copy, Debug, PartialEq, Eq, Structural)]
pub enum Kind {
    UAF,
    DF,
    BO,
    Uninit,
    NPD,
    Other,
}

/// The tag of a vulnerability kind.
pub open spec fn kind_tag(k: Kind) -> Seq<char> {
    match k {
        Kind::UAF => "UAF"@,
        Kind::DF => "DF"@,
        Kind::BO => "BO"@,
        Kind::Uninit => "Uninit"@,
        Kind::NPD => "NPD"@,
        Kind::Other => "Other"@,
    }
}

impl Kind {
    pub fn as_str(&self) -> (r: &'static str)
        ensures
            r@ == kind_tag(*self),
    {
        match self {
            Kind::UAF => "UAF",
            Kind::DF => "DF",
            Kind::BO => "BO",
            Kind::Uninit => "Uninit",
            Kind::NPD => "NPD",
            Kind::Other => "Other",
        }
    }
}

/// The first of `targets` that is not below `n`.
pub open spec fn first_out_of_range(targets: Seq<usize>, n: nat) -> Option<usize>
    decreases targets.len(),
{
    if targets.len() == 0 {
        None
    } else if targets[0] >= n {
        Some(targets[0])
    } else {
        first_out_of_range(targets.drop_first(), n)
    }
}

/// A run over the selected testcases of a configuration.
pub struct Evaluator {
    pub config: Config,
    /// Selected testcase indices; none selected means all.
    pub targets: Vec<usize>,
}

impl Evaluator {
    pub fn new(config: Config, targets: Vec<usize>) -> (r: Self)
        ensures
            r.config == config,
            r.targets@ == targets@,
    {
        Evaluator { config, targets }
    }

    /// Selects the testcases tagged with vulnerability type `ty`.
    pub fn set_target_by_ty(&mut self, ty: &str)
        ensures
            final(self).targets@ == indices_of_type(old(self).config.testcases@, ty@),
            final(self).config == old(self).config,
    {
        self.targets = self.config.testcases.filter_by_ty(ty);
    }

    /// The testcase indices the run covers: the selection, or every index
    /// when nothing is selected.
    pub fn targets_to_run(&self) -> (r: Vec<usize>)
        ensures
            self.targets@.len() == 0 ==> r@ == Seq::new(
                self.config.testcases@.len(),
                |i: int| i as usize,
            ),
            self.targets@.len() > 0 ==> r@ == self.targets@,
    {
        if self.targets.len() == 0 {
            let n = self.config.testcases.len();
            let mut r: Vec<usize> = Vec::new();
            let mut i: usize = 0;
            while i < n
                invariant
                    i <= n,
                    n == self.config.testcases@.len(),
                    r@ == Seq::new(i as nat, |j: int| j as usize),
                decreases n - i,
            {
                r.push(i);
                proof {
                    assert(r@ =~= Seq::new((i + 1) as nat, |j: int| j as usize));
                }
                i = i + 1;
            }
            r
        } else {
            let mut r: Vec<usize> = Vec::new();
            let mut i: usize = 0;
            while i < self.targets.len()
                invariant
                    i <= self.targets@.len(),
                    r@ == self.targets@.subrange(0, i as int),
                decreases self.targets@.len() - i,
            {
                r.push(self.targets[i]);
                proof {
                    assert(r@ =~= self.targets@.subrange(0, i + 1));
                }
                i = i + 1;
            }
            proof {
                assert(r@ =~= self.targets@);
            }
            r
        }
    }

    /// The first selected index outside the catalog, if any: a run with one
    /// must stop before any testcase is explored.
    pub fn check_targets(&self) -> (r: Option<usize>)
        ensures
            r == first_out_of_range(self.targets@, self.config.testcases@.len()),
    {
        let n = self.config.testcases.len();
        let mut i: usize = 0;
        assert(self.targets@.subrange(0, self.targets@.len() as int) =~= self.targets@);
        while i < self.targets.len()
            invariant
                i <= self.targets@.len(),
                n == self.config.testcases@.len(),
                first_out_of_range(self.targets@, n as nat) == first_out_of_range(
                    self.targets@.subrange(i as int, self.targets@.len() as int),
                    n as nat,
                ),
            decreases self.targets@.len() - i,
        {
            let ghost rest = self.targets@.subrange(i as int, self.targets@.len() as int);
            if self.targets[i] >= n {
                return Some(self.targets[i]);
            }
            proof {
                assert(rest.drop_first() =~= self.targets@.subrange(i + 1, self.targets@.len() as int));
            }
            i = i + 1;
        }
        None
    }

    /// The exploration of testcase `idx`, from the outcome of its baseline:
    /// the baseline is counted and made the root of the tree; one that is
    /// not robust is recorded under `"-"` and ends the exploration, as does a
    /// length cap of zero; otherwise the root fragment waits in the frontier
    /// and the whole flow catalog is the working set.
    pub fn explore(&self, idx: usize, baseline: EvalResults) -> (r: Search)
        requires
            idx < self.config.testcases@.len(),
            baseline.valid(),
        ensures
            r.wf(),
            r.pending is None,
            r.idx == idx,
            r.flows@ == self.config.flows@,
            r.max_length == self.config.length,
            r.counter == EvalCounter::zeroed(idx).counted(baseline),
            r.tree.nodes@.len() == 1,
            r.tree.nodes@[0].name@ == expr_id(0, 0, 0),
            r.tree.nodes@[0].res == baseline,
            !baseline.robust() ==> r.map@ == Map::<Seq<char>, Seq<char>>::empty().insert(
                "-"@,
                self.config.testcases@[idx as int].tags.ty@ + " "@ + failure_tag(baseline),
            ),
            !baseline.robust() ==> r.is_done() && r.live().len() == 0,
            baseline.robust() ==> r.map@ == Map::<Seq<char>, Seq<char>>::empty(),
            baseline.robust() && self.config.length == 0 ==> r.is_done(),
            baseline.robust() && self.config.length > 0 ==> {
                &&& r.live() == all_below(self.config.flows@.len())
                &&& r.frontier@.len() == 1
                &&& r.frontier@[0].num@ == expr_id(0, 0, 0)
                &&& r.current is None
            },
    {
        Search::new(
            idx,
            &self.config.testcases.0[idx],
            copy_flows(&self.config.flows),
            self.config.length,
            baseline,
        )
    }
}

} // verus!
