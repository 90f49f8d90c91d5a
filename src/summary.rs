//! The summary over all testcases of a run.
use crate::counter::EvalCounter;
use crate::text::{decimal, decimal_text};
use vstd::prelude::*;
use vstd::string::*;

verus! {

/// Two counts over testcases: those where a tally is non-zero ("normal"),
/// and among them those where it covers every variant ("absolute").
#[derive(Clone, Copy, Debug, PartialEq, Eq, Structural)]
pub struct Metric {
    pub normal: usize,
    pub absolute: usize,
}

/// Which tally of a counter a metric follows.
#[derive(Clone, Copy, Debug, PartialEq, Eq, Structural)]
pub enum Tally {
    Robust,
    TruePositive,
    FalseNegative,
    PositiveError,
    TrueNegative,
    FalsePositive,
    NegativeError,
}

/// The tally `t` of `c`, and the number of variants it is held against:
/// all of them.
pub open spec fn tally(c: EvalCounter, t: Tally) -> (int, int) {
    let v = c.variant_count as int;
    match t {
        Tally::Robust => (c.robust_count as int, v),
        Tally::TruePositive => (c.tp_count as int, v),
        Tally::FalseNegative => (c.fn_count as int, v),
        Tally::PositiveError => (c.pos_err_count as int, v),
        Tally::TrueNegative => (c.tn_count as int, v),
        Tally::FalsePositive => (c.fp_count as int, v),
        Tally::NegativeError => (c.neg_err_count as int, v),
    }
}

/// The metric `m` after one more testcase with count `src` out of `tar`.
pub open spec fn metric_counted(m: Metric, src: int, tar: int) -> Metric {
    if src != 0 {
        Metric {
            normal: (m.normal + 1) as usize,
            absolute: if src == tar { (m.absolute + 1) as usize } else { m.absolute },
        }
    } else {
        m
    }
}

/// Metric `t` over the counters `cs`.
pub open spec fn metric_of(cs: Seq<EvalCounter>, t: Tally) -> Metric
    decreases cs.len(),
{
    if cs.len() == 0 {
        Metric { normal: 0, absolute: 0 }
    } else {
        let m = metric_of(cs.drop_last(), t);
        metric_counted(m, tally(cs.last(), t).0, tally(cs.last(), t).1)
    }
}

/// A metric counts no more testcases than there are, nor more absolute
/// ones than normal ones; every testcase absolute in FP is absolute in TP.
pub proof fn lemma_metric_bounds(cs: Seq<EvalCounter>, t: Tally)
    requires
        cs.len() <= usize::MAX,
        forall|i: int| 0 <= i < cs.len() ==> (#[trigger] cs[i]).wf(),
    ensures
        metric_of(cs, t).normal <= cs.len(),
        metric_of(cs, t).absolute <= metric_of(cs, t).normal,
        metric_of(cs, Tally::FalsePositive).absolute <= metric_of(cs, Tally::TruePositive).absolute,
    decreases cs.len(),
{
    if cs.len() > 0 {
        assert(cs[cs.len() - 1].wf());
        assert forall|i: int| 0 <= i < cs.drop_last().len() implies (#[trigger] cs.drop_last()[i]).wf() by {
            assert(cs[i].wf());
        }
        lemma_metric_bounds(cs.drop_last(), t);
        lemma_metric_bounds(cs.drop_last(), Tally::FalsePositive);
        lemma_metric_bounds(cs.drop_last(), Tally::TruePositive);
    }
}

impl Metric {
    /// Counts one testcase whose tally is `src` out of `tar` variants.
    pub fn count(&mut self, src: usize, tar: usize)
        requires
            old(self).normal < usize::MAX,
            old(self).absolute <= old(self).normal,
        ensures
            *final(self) == metric_counted(*old(self), src as int, tar as int),
    {
        if src != 0 {
            self.normal += 1;
            if src == tar {
                self.absolute += 1;
            }
        }
    }

    /// `"<normal> (<absolute>)"`.
    pub fn to_text(&self) -> (r: String)
        ensures
            r@ == decimal(self.normal as nat) + " ("@ + decimal(self.absolute as nat) + ")"@,
    {
        decimal_text(self.normal).concat(" (").concat(decimal_text(self.absolute).as_str()).concat(")")
    }
}

/// The metrics of one tool over a run.
pub struct EvalSummary {
    pub tool: String,
    pub case_num: usize,
    pub true_positive: Metric,
    pub false_negative: Metric,
    pub positive_error: Metric,
    pub true_negative: Metric,
    pub false_postive: Metric,
    pub negative_error: Metric,
    pub robust_detection: Metric,
}

/// The narrative report on the numbers `v`.
pub open spec fn narrative(v: Seq<nat>) -> Seq<char> {
    "在 "@ + decimal(v[0]) + " 个基础用例的正例中有 "@ + decimal(v[1]) + " 个正例为漏报和 "@ + decimal(v[2])
        + " 个正例为错误，而剩余的 "@ + decimal(v[3]) + " 个基础用例的反例中有 "@ + decimal(v[4])
        + " 个反例为误报且 "@ + decimal(v[5]) + " 个反例为错误。也就是说，总共有 "@ + decimal(v[6])
        + " 个基础用例被成功检测出正例并过滤掉反例（相对鲁棒检测），可进行后续的变体测试。\n而后续对剩余的 "@
        + decimal(v[7]) + " 组基础用例的变体测试中，正例中有 "@ + decimal(v[8]) + " 组被绝对检测出来、 "@
        + decimal(v[9]) + " 组包含漏报且 "@ + decimal(v[10]) + " 组错误，而反例中有 "@ + decimal(v[11])
        + " 组被绝对过滤掉、 "@ + decimal(v[12]) + " 组包含误报且有 "@ + decimal(v[13])
        + " 组包含错误。因此，只有 "@ + decimal(v[14])
        + " 个基础用例的所有变体被成功检测出正例并过滤掉反例（绝对鲁棒检测）。\n"@
}

/// `s` followed by the digits of `n` and then `piece`.
fn append_num(s: String, n: usize, piece: &str) -> (r: String)
    ensures
        r@ == s@ + decimal(n as nat) + piece@,
{
    s.concat(decimal_text(n).as_str()).concat(piece)
}

impl EvalSummary {
    /// Absolute counts stay within normal ones, and absolute FP within
    /// absolute TP.
    pub open spec fn wf(&self) -> bool {
        &&& self.true_positive.absolute <= self.true_positive.normal
        &&& self.false_negative.absolute <= self.false_negative.normal
        &&& self.positive_error.absolute <= self.positive_error.normal
        &&& self.true_negative.absolute <= self.true_negative.normal
        &&& self.false_postive.absolute <= self.false_postive.normal
        &&& self.negative_error.absolute <= self.negative_error.normal
        &&& self.robust_detection.absolute <= self.robust_detection.normal
        &&& self.false_postive.absolute <= self.true_positive.absolute
    }

    /// The numbers that the report states, in order.
    pub open spec fn report_values(&self) -> Seq<nat> {
        seq![
            self.case_num as nat,
            self.false_negative.absolute as nat,
            self.positive_error.absolute as nat,
            self.true_positive.normal as nat,
            self.false_postive.absolute as nat,
            self.negative_error.absolute as nat,
            self.robust_detection.normal as nat,
            self.robust_detection.normal as nat,
            (self.true_positive.absolute - self.false_postive.absolute) as nat,
            (self.false_negative.normal - self.false_negative.absolute) as nat,
            (self.positive_error.normal - self.positive_error.absolute) as nat,
            self.true_negative.absolute as nat,
            (self.false_postive.normal - self.false_postive.absolute) as nat,
            (self.negative_error.normal - self.negative_error.absolute) as nat,
            self.robust_detection.absolute as nat,
        ]
    }

    /// A summary of `tool` over no testcase.
    pub fn new(tool: String) -> (r: Self)
        ensures
            r.tool@ == tool@,
            r.case_num == 0,
            r.true_positive == (Metric { normal: 0, absolute: 0 }),
            r.false_negative == (Metric { normal: 0, absolute: 0 }),
            r.positive_error == (Metric { normal: 0, absolute: 0 }),
            r.true_negative == (Metric { normal: 0, absolute: 0 }),
            r.false_postive == (Metric { normal: 0, absolute: 0 }),
            r.negative_error == (Metric { normal: 0, absolute: 0 }),
            r.robust_detection == (Metric { normal: 0, absolute: 0 }),
    {
        let z = Metric { normal: 0, absolute: 0 };
        EvalSummary {
            tool,
            case_num: 0,
            true_positive: z,
            false_negative: z,
            positive_error: z,
            true_negative: z,
            false_postive: z,
            negative_error: z,
            robust_detection: z,
        }
    }

    /// The seven metrics of `tool` over the counters of a run.
    pub fn summary(tool: String, counters: &[EvalCounter]) -> (r: Self)
        requires
            forall|i: int| 0 <= i < counters@.len() ==> (#[trigger] counters@[i]).wf(),
        ensures
            r.tool@ == tool@,
            r.case_num == counters@.len(),
            r.robust_detection == metric_of(counters@, Tally::Robust),
            r.true_positive == metric_of(counters@, Tally::TruePositive),
            r.false_negative == metric_of(counters@, Tally::FalseNegative),
            r.positive_error == metric_of(counters@, Tally::PositiveError),
            r.true_negative == metric_of(counters@, Tally::TrueNegative),
            r.false_postive == metric_of(counters@, Tally::FalsePositive),
            r.negative_error == metric_of(counters@, Tally::NegativeError),
            r.wf(),
    {
        let mut summary = EvalSummary::new(tool);
        summary.case_num = counters.len();
        let mut i: usize = 0;
        while i < counters.len()
            invariant
                i <= counters@.len(),
                summary.tool@ == tool@,
                summary.case_num == counters@.len(),
                forall|j: int| 0 <= j < counters@.len() ==> (#[trigger] counters@[j]).wf(),
                summary.robust_detection == metric_of(counters@.subrange(0, i as int), Tally::Robust),
                summary.true_positive == metric_of(counters@.subrange(0, i as int), Tally::TruePositive),
                summary.false_negative == metric_of(counters@.subrange(0, i as int), Tally::FalseNegative),
                summary.positive_error == metric_of(counters@.subrange(0, i as int), Tally::PositiveError),
                summary.true_negative == metric_of(counters@.subrange(0, i as int), Tally::TrueNegative),
                summary.false_postive == metric_of(counters@.subrange(0, i as int), Tally::FalsePositive),
                summary.negative_error == metric_of(counters@.subrange(0, i as int), Tally::NegativeError),
            decreases counters@.len() - i,
        {
            let ghost done = counters@.subrange(0, i as int);
            proof {
                assert forall|j: int| 0 <= j < done.len() implies (#[trigger] done[j]).wf() by {
                    assert(counters@[j].wf());
                }
                lemma_metric_bounds(done, Tally::Robust);
                lemma_metric_bounds(done, Tally::TruePositive);
                lemma_metric_bounds(done, Tally::FalseNegative);
                lemma_metric_bounds(done, Tally::PositiveError);
                lemma_metric_bounds(done, Tally::TrueNegative);
                lemma_metric_bounds(done, Tally::FalsePositive);
                lemma_metric_bounds(done, Tally::NegativeError);
            }
            let s = &counters[i];
            assert(s.wf());
            summary.robust_detection.count(s.robust_count, s.variant_count);
            summary.true_positive.count(s.tp_count, s.variant_count);
            summary.false_negative.count(s.fn_count, s.variant_count);
            summary.positive_error.count(s.pos_err_count, s.variant_count);
            summary.false_postive.count(s.fp_count, s.variant_count);
            summary.true_negative.count(s.tn_count, s.variant_count);
            summary.negative_error.count(s.neg_err_count, s.variant_count);
            proof {
                assert(counters@.subrange(0, i + 1).drop_last() =~= done);
            }
            i = i + 1;
        }
        proof {
            assert(counters@.subrange(0, i as int) =~= counters@);
            lemma_metric_bounds(counters@, Tally::Robust);
            lemma_metric_bounds(counters@, Tally::TruePositive);
            lemma_metric_bounds(counters@, Tally::FalseNegative);
            lemma_metric_bounds(counters@, Tally::PositiveError);
            lemma_metric_bounds(counters@, Tally::TrueNegative);
            lemma_metric_bounds(counters@, Tally::FalsePositive);
            lemma_metric_bounds(counters@, Tally::NegativeError);
        }
        summary
    }

    /// The narrative report: how many baselines were missed, failed, or
    /// detected robustly, then how the variants of the robust ones fared.
    pub fn report(&self) -> (r: String)
        requires
            self.wf(),
        ensures
            r@ == narrative(self.report_values()),
    {
        let mut s = String::from_str("在 ");
        s = append_num(s, self.case_num, " 个基础用例的正例中有 ");
        s = append_num(s, self.false_negative.absolute, " 个正例为漏报和 ");
        s = append_num(s, self.positive_error.absolute, " 个正例为错误，而剩余的 ");
        s = append_num(s, self.true_positive.normal, " 个基础用例的反例中有 ");
        s = append_num(s, self.false_postive.absolute, " 个反例为误报且 ");
        s = append_num(s, self.negative_error.absolute, " 个反例为错误。也就是说，总共有 ");
        s = append_num(
            s,
            self.robust_detection.normal,
            " 个基础用例被成功检测出正例并过滤掉反例（相对鲁棒检测），可进行后续的变体测试。\n而后续对剩余的 ",
        );
        s = append_num(s, self.robust_detection.normal, " 组基础用例的变体测试中，正例中有 ");
        s = append_num(s, self.true_positive.absolute - self.false_postive.absolute, " 组被绝对检测出来、 ");
        s = append_num(s, self.false_negative.normal - self.false_negative.absolute, " 组包含漏报且 ");
        s = append_num(s, self.positive_error.normal - self.positive_error.absolute, " 组错误，而反例中有 ");
        s = append_num(s, self.true_negative.absolute, " 组被绝对过滤掉、 ");
        s = append_num(s, self.false_postive.normal - self.false_postive.absolute, " 组包含误报且有 ");
        s = append_num(s, self.negative_error.normal - self.negative_error.absolute, " 组包含错误。因此，只有 ");
        s = append_num(
            s,
            self.robust_detection.absolute,
            " 个基础用例的所有变体被成功检测出正例并过滤掉反例（绝对鲁棒检测）。\n",
        );
        s
    }
}

} // verus!
