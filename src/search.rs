//! The breadth-first exploration of one testcase, as a state machine: the
//! caller asks for the next variant, runs the tool on its programs, and
//! records the outcome.
use crate::config::{Flow, Testcase};
use crate::counter::EvalCounter;
use crate::ir::{expr_id, lemma_picked_depth_bound, Expr, Exprs};
use crate::result::{failure_tag, EvalMap, EvalResults};
use crate::tree::{first_named, lemma_first_named_from, lemma_first_named_stable, EvalNode, EvalTree};
use std::collections::VecDeque;
use vstd::prelude::*;
use vstd::string::*;

verus! {

/// `0, 1, ..., n - 1`.
pub open spec fn all_below(n: nat) -> Seq<usize> {
    Seq::new(n, |i: int| i as usize)
}

/// The exploration state of one testcase.
pub struct Search {
    pub idx: usize,
    /// Variants are at most this many flows deep.
    pub max_length: usize,
    /// The flow catalog; the working set holds positions in it.
    pub flows: Vec<Flow>,
    pub counter: EvalCounter,
    pub tree: EvalTree,
    pub map: EvalMap,
    /// Fragments that generic-expression markers sample.
    pub pool: Exprs,
    /// Fragments still to expand, oldest first.
    pub frontier: VecDeque<Expr>,
    /// The working set as it stood when the current fragment was taken up.
    pub working: Vec<usize>,
    /// How many flows of `working` were tried on the current fragment.
    pub cursor: usize,
    /// Flows of `working` tried on the current fragment and kept.
    pub kept: Vec<usize>,
    /// The fragment being expanded.
    pub current: Option<Expr>,
    /// The variant handed out and not yet recorded.
    pub pending: Option<Expr>,
}

impl Search {
    /// The working set: flows kept in this pass, then those not yet tried.
    pub open spec fn live(&self) -> Seq<usize> {
        self.kept@ + self.working@.subrange(self.cursor as int, self.working@.len() as int)
    }

    /// `e` names a node of the tree.
    pub open spec fn in_tree(&self, e: Expr) -> bool {
        first_named(self.tree.nodes@, e.num@) < self.tree.nodes@.len()
    }

    /// No variant is left to try.
    pub open spec fn is_done(&self) -> bool {
        &&& self.current is None
        &&& self.pending is None
        &&& (self.frontier@.len() == 0 || self.working@.len() == 0)
    }

    pub open spec fn wf(&self) -> bool {
        &&& self.tree.wf()
        &&& self.counter.wf()
        &&& self.counter.variant_count == self.tree.nodes@.len()
        &&& self.tree.nodes@.len() >= 1
        &&& forall|i: int| 0 <= i < self.tree.nodes@.len() ==> (#[trigger] self.tree.nodes@[i]).res.valid()
        &&& self.pool@.len() > 0
        &&& forall|i: int| 0 <= i < self.pool@.len() ==> (#[trigger] self.pool@[i]).depth < self.tree.nodes@.len()
        &&& forall|i: int|
            0 <= i < self.frontier@.len() ==> {
                &&& (#[trigger] self.frontier@[i]).length < self.max_length
                &&& self.frontier@[i].depth < self.tree.nodes@.len()
                &&& self.in_tree(self.frontier@[i])
            }
        &&& self.current is Some ==> {
            let c = self.current->0;
            &&& c.length < self.max_length
            &&& c.depth < self.tree.nodes@.len()
            &&& self.in_tree(c)
            &&& self.cursor < self.working@.len()
        }
        &&& self.current is None ==> {
            &&& self.kept@.len() == 0
            &&& self.cursor == 0
            &&& self.pending is None
        }
        &&& self.pending is Some ==> {
            &&& self.pending->0.length == self.current->0.length + 1
            &&& self.pending->0.depth <= self.tree.nodes@.len()
        }
        &&& self.cursor <= self.working@.len()
        &&& forall|i: int| 0 <= i < self.live().len() ==> #[trigger] self.live()[i] < self.flows@.len()
        &&& forall|a: int, b: int|
            0 <= a < b < self.live().len() ==> #[trigger] self.live()[a] < #[trigger] self.live()[b]
    }

    /// Starts the exploration of testcase `idx` from the outcome of its
    /// baseline, the testcase's own programs with no flow applied. A baseline
    /// that is not robust ends the exploration at once and is recorded under
    /// `"-"` with the testcase's vulnerability type; so does a length cap of
    /// zero, with nothing recorded. Otherwise the root fragment waits in the
    /// frontier and in the pool, and the working set is the whole catalog.
    pub fn new(idx: usize, case: &Testcase, flows: Vec<Flow>, max_length: usize, baseline: EvalResults) -> (r: Self)
        requires
            baseline.valid(),
        ensures
            r.wf(),
            r.pending is None,
            r.idx == idx,
            r.flows@ == flows@,
            r.max_length == max_length,
            r.counter == EvalCounter::zeroed(idx).counted(baseline),
            r.tree.nodes@.len() == 1,
            r.tree.nodes@[0].name@ == expr_id(0, 0, 0),
            r.tree.nodes@[0].res == baseline,
            !baseline.robust() ==> r.map@ == Map::<Seq<char>, Seq<char>>::empty().insert(
                "-"@,
                case.tags.ty@ + " "@ + failure_tag(baseline),
            ),
            !baseline.robust() ==> r.is_done() && r.live().len() == 0,
            baseline.robust() ==> r.map@ == Map::<Seq<char>, Seq<char>>::empty(),
            baseline.robust() && max_length == 0 ==> r.is_done(),
            baseline.robust() && max_length > 0 ==> {
                &&& r.live() == all_below(flows@.len())
                &&& r.frontier@.len() == 1
                &&& r.frontier@[0].num@ == expr_id(0, 0, 0)
                &&& r.current is None
            },
    {
        let root = Expr::source();
        let mut counter = EvalCounter::new(idx);
        counter.count(&baseline);
        let mut tree = EvalTree::new();
        tree.set_root(EvalNode::new(root.num.as_str(), baseline));
        let mut map = EvalMap::new();
        let mut pool = Exprs::new();
        let mut frontier: VecDeque<Expr> = VecDeque::new();
        let mut working: Vec<usize> = Vec::new();
        if baseline.is_robust() {
            if max_length > 0 {
                let mut i: usize = 0;
                while i < flows.len()
                    invariant
                        i <= flows@.len(),
                        working@ == all_below(i as nat),
                    decreases flows@.len() - i,
                {
                    working.push(i);
                    proof {
                        assert(working@ =~= all_below((i + 1) as nat));
                    }
                    i = i + 1;
                }
                pool.push(root.duplicate());
                proof {
                    lemma_first_named_from(tree.nodes@, root.num@, 0);
                }
                frontier.push_back(root);
            }
        } else {
            map.insert(String::from_str("-"), case.tags.ty.as_str(), &baseline);
        }
        if pool.len() == 0 {
            pool.push(Expr::source());
        }
        let r = Search {
            idx,
            max_length,
            flows,
            counter,
            tree,
            map,
            pool,
            frontier,
            working,
            cursor: 0,
            kept: Vec::new(),
            current: None,
            pending: None,
        };
        proof {
            assert(r.live() =~= r.working@);
        }
        r
    }

    /// The next variant to try: the next flow of the working set applied to
    /// the fragment being expanded, or to the next fragment of the frontier
    /// once the current one has tried them all. `None` when none is left.
    pub fn next_variant(&mut self, case: &Testcase) -> (r: Option<Expr>)
        requires
            old(self).wf(),
            old(self).pending is None,
        ensures
            final(self).wf(),
            final(self).live() == old(self).live(),
            final(self).flows@ == old(self).flows@,
            final(self).max_length == old(self).max_length,
            final(self).counter == old(self).counter,
            final(self).tree.nodes@ == old(self).tree.nodes@,
            final(self).map@ == old(self).map@,
            r is None <==> old(self).is_done(),
            r is None ==> final(self).is_done(),
            r is None ==> {
                &&& final(self).frontier@ == old(self).frontier@
                &&& final(self).working@ == old(self).working@
                &&& final(self).current == old(self).current
            },
            r is Some && old(self).current is Some ==> {
                &&& final(self).working@ == old(self).working@
                &&& final(self).kept@ == old(self).kept@
                &&& final(self).cursor == old(self).cursor
            },
            r is Some && old(self).current is None ==> {
                &&& final(self).working@ == old(self).live()
                &&& final(self).kept@.len() == 0
                &&& final(self).cursor == 0
            },
            r is Some ==> {
                let e = r->0;
                let src = final(self).current->0;
                &&& final(self).pending == Some(e)
                &&& final(self).current is Some
                &&& old(self).current is Some ==> src == old(self).current->0
                &&& old(self).current is None ==> {
                    &&& src == old(self).frontier@[0]
                    &&& final(self).frontier@ == old(self).frontier@.drop_first()
                }
                &&& old(self).current is Some ==> final(self).frontier@ == old(self).frontier@
                &&& final(self).flows@[final(self).working@[final(self).cursor as int] as int].produces(
                    old(self).tree.nodes@.len() as usize,
                    src,
                    old(self).pool@,
                    *case,
                    e,
                )
                &&& e.length <= final(self).max_length
                &&& final(self).live().contains(final(self).working@[final(self).cursor as int])
            },
    {
        if self.current.is_none() {
            if self.working.len() == 0 {
                return None;
            }
            match self.frontier.pop_front() {
                None => {
                    return None;
                },
                Some(src) => {
                    self.current = Some(src);
                },
            }
        }
        let src = match &self.current {
            Some(c) => c,
            None => {
                return None;
            },
        };
        proof {
            let k = self.kept@.len() as int;
            assert(self.live()[k] == self.working@[self.cursor as int]);
            assert(self.live().contains(self.working@[self.cursor as int]));
        }
        let f = self.working[self.cursor];
        let num = self.tree.count_nodes();
        let e = self.flows[f].into_expr(num, src, &self.pool, case);
        proof {
            lemma_picked_depth_bound(
                src.depth as nat,
                self.pool@,
                choose|picks: Seq<usize>| {
                    &&& picks.len() == crate::config::marker_count(self.flows@[f as int].code@, src.code@, case.ty@, case.val@)
                    &&& crate::ir::picks_in(picks, self.pool@.len())
                    &&& e.code@ == crate::config::synthesized(self.flows@[f as int].code@, src.code@, case.ty@, case.val@, self.pool@, picks)
                    &&& e.depth == crate::ir::picked_depth(src.depth as nat, self.pool@, picks)
                },
                self.tree.nodes@.len() as nat,
            );
        }
        self.pending = Some(e.duplicate());
        Some(e)
    }

    /// Records the outcome `res` of the pending variant: it is counted and
    /// attached in the tree under the fragment it was made from. A robust
    /// variant keeps its flow in the working set, and joins the frontier and
    /// the pool while it is shorter than the cap; any other outcome removes
    /// the flow from the working set for good and records it, under the
    /// flow's name, with the variant's id and the outcome's tag.
    pub fn record(&mut self, res: EvalResults)
        requires
            old(self).wf(),
            old(self).pending is Some,
            res.valid(),
            old(self).counter.variant_count < usize::MAX,
        ensures
            final(self).wf(),
            final(self).pending is None,
            final(self).flows@ == old(self).flows@,
            final(self).max_length == old(self).max_length,
            final(self).counter == old(self).counter.counted(res),
            ({
                let e = old(self).pending->0;
                let src = old(self).current->0;
                let n = old(self).tree.nodes@.len();
                let f = old(self).working@[old(self).cursor as int];
                let k = old(self).kept@.len() as int;
                &&& final(self).tree.nodes@.len() == n + 1
                &&& final(self).tree.nodes@[n as int].name@ == e.num@
                &&& final(self).tree.nodes@[n as int].res == res
                &&& final(self).tree.nodes@[n as int].parent == Some(
                    first_named(old(self).tree.nodes@, src.num@) as usize,
                )
                &&& res.robust() ==> {
                    &&& final(self).live() == old(self).live()
                    &&& final(self).map@ == old(self).map@
                }
                &&& res.robust() && e.length < old(self).max_length ==> {
                    &&& final(self).frontier@ == old(self).frontier@.push(e)
                    &&& final(self).pool@ == old(self).pool@.push(e)
                }
                &&& !(res.robust() && e.length < old(self).max_length) ==> final(self).pool@
                    == old(self).pool@
                &&& !res.robust() ==> {
                    &&& final(self).live() == old(self).live().remove(k)
                    &&& !final(self).live().contains(f)
                    &&& final(self).map@ == old(self).map@.insert(
                        old(self).flows@[f as int].name@,
                        e.num@ + " "@ + failure_tag(res),
                    )
                }
                &&& !(res.robust() && e.length < old(self).max_length) ==> final(self).frontier@
                    == old(self).frontier@
            }),
            ({
                let f = old(self).working@[old(self).cursor as int];
                let kept = if res.robust() { old(self).kept@.push(f) } else { old(self).kept@ };
                &&& old(self).cursor + 1 < old(self).working@.len() ==> {
                    &&& final(self).cursor == old(self).cursor + 1
                    &&& final(self).working@ == old(self).working@
                    &&& final(self).kept@ == kept
                    &&& final(self).current == old(self).current
                }
                &&& old(self).cursor + 1 == old(self).working@.len() ==> {
                    &&& final(self).cursor == 0
                    &&& final(self).working@ == kept
                    &&& final(self).kept@.len() == 0
                    &&& final(self).current is None
                }
            }),
            final(self).live().to_set().subset_of(old(self).live().to_set()),
            final(self).live().len() <= old(self).live().len(),
    {
        let ghost old_self = *self;
        let ghost old_live = self.live();
        let ghost k = self.kept@.len() as int;
        let e = match self.pending.take() {
            Some(e) => e,
            None => {
                return;
            },
        };
        let src_num = match &self.current {
            Some(c) => c.num.clone(),
            None => {
                return;
            },
        };
        let ghost old_nodes = self.tree.nodes@;
        self.counter.count(&res);
        let added = self.tree.add_child(src_num.as_str(), e.num.as_str(), res);
        proof {
            assert(added is Ok);
            assert forall|j: int| 0 <= j < old_nodes.len() implies #[trigger] self.tree.nodes@[j].name@
                == old_nodes[j].name@ by {
                let p = first_named(old_nodes, src_num@);
                if j != p {
                    assert(self.tree.nodes@[j] == old_nodes[j]);
                }
            }
            assert forall|i: int| 0 <= i < self.tree.nodes@.len() implies (
            #[trigger] self.tree.nodes@[i]).res.valid() by {
                let p = first_named(old_nodes, src_num@);
                if i < old_nodes.len() && i != p {
                    assert(self.tree.nodes@[i] == old_nodes[i]);
                    assert(old_nodes[i].res.valid());
                } else if i == p {
                    assert(old_nodes[i].res.valid());
                }
            }
            assert forall|i: int| 0 <= i < self.frontier@.len() implies self.in_tree(
                #[trigger] self.frontier@[i],
            ) by {
                assert(old_self.in_tree(old_self.frontier@[i]));
                lemma_first_named_stable(old_nodes, self.tree.nodes@, self.frontier@[i].num@);
            }
            lemma_first_named_stable(old_nodes, self.tree.nodes@, src_num@);
            assert(self.live()[k] == self.working@[self.cursor as int]);
        }
        let f = self.working[self.cursor];
        if res.is_robust() {
            if e.length < self.max_length {
                self.frontier.push_back(e.duplicate());
                proof {
                    lemma_first_named_from(self.tree.nodes@, e.num@, 0);
                }
                self.pool.push(e);
            }
            self.kept.push(f);
        } else {
            self.map.insert(self.flows[f].name.clone(), e.num.as_str(), &res);
        }
        let ghost wl = self.working.len();
        assert(self.cursor == old_self.cursor && self.working@ == old_self.working@);
        self.cursor = self.cursor + 1;
        proof {
            if res.robust() {
                assert(self.live() =~= old_live);
            } else {
                assert(self.live() =~= old_live.remove(k));
                assert forall|a: int, b: int|
                    0 <= a < b < self.live().len() implies #[trigger] self.live()[a] < #[trigger] self.live()[b] by {
                    let a2 = if a < k { a } else { a + 1 };
                    let b2 = if b < k { b } else { b + 1 };
                    assert(old_live[a2] < old_live[b2]);
                }
                assert(!self.live().contains(f)) by {
                    if self.live().contains(f) {
                        let j = choose|j: int| 0 <= j < self.live().len() && self.live()[j] == f;
                        let j2 = if j < k { j } else { j + 1 };
                        assert(old_live[j2] == f);
                        assert(old_live[k] == f);
                        if j2 < k {
                            assert(old_live[j2] < old_live[k]);
                        } else {
                            assert(old_live[k] < old_live[j2]);
                        }
                    }
                }
            }
            assert(self.live().to_set().subset_of(old_live.to_set())) by {
                assert forall|x: usize| self.live().to_set().contains(x) implies old_live.to_set().contains(x) by {
                    let j = choose|j: int| 0 <= j < self.live().len() && self.live()[j] == x;
                    if !res.robust() {
                        let j2 = if j < k { j } else { j + 1 };
                        assert(old_live[j2] == x);
                    } else {
                        assert(old_live[j] == x);
                    }
                }
            }
        }
        if self.cursor == self.working.len() {
            let ghost before = self.live();
            core::mem::swap(&mut self.working, &mut self.kept);
            self.kept = Vec::new();
            self.cursor = 0;
            self.current = None;
            proof {
                assert(self.live() =~= before);
            }
        }
    }
}

/// In every reachable state the counter has counted exactly the nodes of
/// the tree, the baseline's included.
pub proof fn lemma_tree_counter_consistent(s: Search)
    requires
        s.wf(),
    ensures
        s.counter.variant_count == s.tree.nodes@.len(),
{
}

/// In every reachable state no fragment waiting in the frontier, nor the one
/// being expanded, has reached the length cap, and the variant handed out
/// is at most at the cap.
pub proof fn lemma_length_bound(s: Search)
    requires
        s.wf(),
    ensures
        forall|i: int| 0 <= i < s.frontier@.len() ==> (#[trigger] s.frontier@[i]).length < s.max_length,
        s.current is Some ==> s.current->0.length < s.max_length,
        s.pending is Some ==> s.pending->0.length <= s.max_length,
{
}

/// Over a run, where each step keeps the working set within the one before
/// and no longer (as `next_variant` and `record` ensure), the working set
/// never grows, and a flow once out of it never comes back.
pub proof fn lemma_retirement_is_final(lives: Seq<Seq<usize>>, a: int, b: int, f: usize)
    requires
        0 <= a <= b < lives.len(),
        forall|k: int|
            0 <= k < lives.len() - 1 ==> (#[trigger] lives[k + 1]).to_set().subset_of(lives[k].to_set())
                && lives[k + 1].len() <= lives[k].len(),
    ensures
        lives[b].len() <= lives[a].len(),
        lives[b].to_set().subset_of(lives[a].to_set()),
        !lives[a].contains(f) ==> !lives[b].contains(f),
    decreases b - a,
{
    if a < b {
        lemma_retirement_is_final(lives, a, b - 1, f);
        let k = b - 1;
        assert(lives[k + 1].to_set().subset_of(lives[k].to_set()) && lives[k + 1].len() <= lives[k].len());
        assert(lives[b].to_set().subset_of(lives[b - 1].to_set()));
        if lives[b].contains(f) {
            assert(lives[b].to_set().contains(f));
            assert(lives[a].to_set().contains(f));
        }
    }
}

} // verus!
