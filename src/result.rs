//! Outcome classification and the record of why flows were retired.
use crate::config::Flow;
use vstd::prelude::*;
use vstd::string::*;

verus! {

/// The outcome of running the tool on one program.
#[derive(Clone, Copy, Debug, PartialEq, Eq, Structural)]
pub enum EvalResult {
    /// The tool or the program failed to run.
    Error,
    TP,
    /// A report on the negative program.
    FP,
    /// No report on the positive program.
    FN,
    TN,
}

/// What the tool reported on one program.
#[derive(Clone, Copy, Debug, PartialEq, Eq, Structural)]
pub enum Signal {
    Found,
    NotFound,
    Failed,
}

/// Outcomes on the positive and on the negative program of one variant.
#[derive(Clone, Copy, Debug, PartialEq, Eq, Structural)]
pub struct EvalResults(pub EvalResult, pub EvalResult);

impl EvalResults {
    /// The positive outcome is one of Error, TP, FN and the negative one of
    /// Error, FP, TN.
    pub open spec fn valid(self) -> bool {
        &&& (self.0 == EvalResult::Error || self.0 == EvalResult::TP || self.0 == EvalResult::FN)
        &&& (self.1 == EvalResult::Error || self.1 == EvalResult::FP || self.1 == EvalResult::TN)
    }

    /// The positive program was flagged and the negative one cleared.
    pub open spec fn robust(self) -> bool {
        self.0 == EvalResult::TP && self.1 == EvalResult::TN
    }

    pub fn is_robust(&self) -> (r: bool)
        ensures
            r == self.robust(),
    {
        match (self.0, self.1) {
            (EvalResult::TP, EvalResult::TN) => true,
            _ => false,
        }
    }
}

pub open spec fn positive_outcome(s: Signal) -> EvalResult {
    match s {
        Signal::Failed => EvalResult::Error,
        Signal::Found => EvalResult::TP,
        Signal::NotFound => EvalResult::FN,
    }
}

pub open spec fn negative_outcome(s: Signal) -> EvalResult {
    match s {
        Signal::Failed => EvalResult::Error,
        Signal::Found => EvalResult::FP,
        Signal::NotFound => EvalResult::TN,
    }
}

pub open spec fn classified(pos: Signal, neg: Signal) -> EvalResults {
    EvalResults(positive_outcome(pos), negative_outcome(neg))
}

/// Classifies the signals of the positive and the negative program; each
/// side is judged on its own signal alone.
pub fn classify(pos: Signal, neg: Signal) -> (r: EvalResults)
    ensures
        r == classified(pos, neg),
        r.valid(),
{
    let p = match pos {
        Signal::Failed => EvalResult::Error,
        Signal::Found => EvalResult::TP,
        Signal::NotFound => EvalResult::FN,
    };
    let n = match neg {
        Signal::Failed => EvalResult::Error,
        Signal::Found => EvalResult::FP,
        Signal::NotFound => EvalResult::TN,
    };
    EvalResults(p, n)
}

/// Classification is a function of the two signals: two classifications of
/// the same pair agree, and every classification is a legal pair.
pub proof fn lemma_classify_deterministic(p1: Signal, n1: Signal, p2: Signal, n2: Signal)
    requires
        p1 == p2,
        n1 == n2,
    ensures
        classified(p1, n1) == classified(p2, n2),
        classified(p1, n1).valid(),
{
}

/// The short tag of a failing outcome.
pub open spec fn failure_tag(res: EvalResults) -> Seq<char> {
    if res.0 == EvalResult::Error || res.1 == EvalResult::Error {
        "Error"@
    } else if res.0 == EvalResult::TP {
        "FP"@
    } else if res.1 == EvalResult::FP {
        "FN & FP"@
    } else {
        "FN"@
    }
}

/// The short tag of an outcome that is legal and not robust.
pub fn failure_text(res: &EvalResults) -> (r: String)
    requires
        res.valid(),
        !res.robust(),
    ensures
        r@ == failure_tag(*res),
{
    match (res.0, res.1) {
        (EvalResult::Error, _) | (_, EvalResult::Error) => String::from_str("Error"),
        (EvalResult::TP, _) => String::from_str("FP"),
        (_, EvalResult::FP) => String::from_str("FN & FP"),
        _ => String::from_str("FN"),
    }
}

/// The map that the entries denote: a later entry for a key overrides an
/// earlier one.
pub open spec fn entries_map(s: Seq<(String, String)>) -> Map<Seq<char>, Seq<char>>
    decreases s.len(),
{
    if s.len() == 0 {
        Map::empty()
    } else {
        entries_map(s.drop_last()).insert(s.last().0@, s.last().1@)
    }
}

/// One row of the retirement table: the baseline's entry first, then one
/// per flow of the catalog, `"-"` where nothing is recorded. A failed
/// baseline fills only the first column.
pub open spec fn retirement_row(m: Map<Seq<char>, Seq<char>>, names: Seq<Seq<char>>) -> Seq<Seq<char>> {
    Seq::new(
        names.len() + 1,
        |j: int|
            if m.contains_key("-"@) {
                if j == 0 {
                    m["-"@]
                } else {
                    "-"@
                }
            } else if j > 0 && m.contains_key(names[j - 1]) {
                m[names[j - 1]]
            } else {
                "-"@
            },
    )
}

/// Why each retired flow was retired: flow name (or `"-"` for a failed
/// baseline) to the failing node's id, or the vulnerability type, and a tag.
pub struct EvalMap {
    entries: Vec<(String, String)>,
}

/// Entries after the first `i` hold no key `k`: the first `i` decide it.
proof fn lemma_prefix_decides(s: Seq<(String, String)>, i: int, k: Seq<char>)
    requires
        0 <= i <= s.len(),
        forall|j: int| i <= j < s.len() ==> s[j].0@ != k,
    ensures
        entries_map(s).contains_key(k) == entries_map(s.subrange(0, i)).contains_key(k),
        entries_map(s).contains_key(k) ==> entries_map(s)[k] == entries_map(s.subrange(0, i))[k],
    decreases s.len() - i,
{
    if i < s.len() {
        assert(s.subrange(0, s.len() - 1) =~= s.drop_last());
        lemma_prefix_decides(s.drop_last(), i, k);
        assert(s.drop_last().subrange(0, i) =~= s.subrange(0, i));
    } else {
        assert(s.subrange(0, i) =~= s);
    }
}

impl EvalMap {
    pub closed spec fn view(&self) -> Map<Seq<char>, Seq<char>> {
        entries_map(self.entries@)
    }

    pub fn new() -> (r: Self)
        ensures
            r@ == Map::<Seq<char>, Seq<char>>::empty(),
    {
        EvalMap { entries: Vec::new() }
    }

    /// Records `k` as retired with `"<v> <tag>"`.
    pub fn insert(&mut self, k: String, v: &str, res: &EvalResults)
        requires
            res.valid(),
            !res.robust(),
        ensures
            final(self)@ == old(self)@.insert(k@, v@ + " "@ + failure_tag(*res)),
    {
        let tag = failure_text(res);
        let val = String::from_str(v).concat(" ").concat(tag.as_str());
        let ghost old_entries = self.entries@;
        self.entries.push((k, val));
        assert(self.entries@.drop_last() =~= old_entries);
    }

    /// What is recorded for `k`.
    pub fn get(&self, k: &str) -> (r: Option<String>)
        ensures
            r is Some <==> self@.contains_key(k@),
            r is Some ==> r->0@ == self@[k@],
    {
        let key = String::from_str(k);
        let mut i: usize = self.entries.len();
        while i > 0
            invariant
                i <= self.entries@.len(),
                key@ == k@,
                forall|j: int| i <= j < self.entries@.len() ==> self.entries@[j].0@ != k@,
            decreases i,
        {
            if self.entries[i - 1].0.eq(&key) {
                proof {
                    let s = self.entries@;
                    lemma_prefix_decides(s, i as int, k@);
                    let t = s.subrange(0, i as int);
                    assert(t.last() == s[i - 1]);
                    assert(entries_map(t) == entries_map(t.drop_last()).insert(t.last().0@, t.last().1@));
                    assert(entries_map(t).contains_key(k@));
                }
                return Some(self.entries[i - 1].1.clone());
            }
            i = i - 1;
        }
        proof {
            lemma_prefix_decides(self.entries@, 0, k@);
        }
        None
    }

    /// The row of the retirement table for the flow catalog `flows`.
    pub fn to_vec(&self, flows: &Vec<Flow>) -> (r: Vec<String>)
        requires
            flows@.len() < usize::MAX,
        ensures
            r@.map_values(|x: String| x@) == retirement_row(self@, flows@.map_values(|f: Flow| f.name@)),
    {
        let ghost names = flows@.map_values(|f: Flow| f.name@);
        let ghost want = retirement_row(self@, names);
        assert(names.len() == flows@.len());
        assert(want.len() == flows@.len() + 1);
        let mut r: Vec<String> = Vec::new();
        match self.get("-") {
            Some(v) => {
                r.push(v);
                let mut i: usize = 0;
                while i < flows.len()
                    invariant
                        i <= flows@.len(),
                        self@.contains_key("-"@),
                        r@.len() == i + 1,
                        names == flows@.map_values(|f: Flow| f.name@),
                        want == retirement_row(self@, names),
                        want.len() == flows@.len() + 1,
                        forall|j: int| 0 <= j < r@.len() ==> (#[trigger] r@[j])@ == want[j],
                    decreases flows@.len() - i,
                {
                    r.push(String::from_str("-"));
                    i = i + 1;
                }
            },
            None => {
                r.push(String::from_str("-"));
                let mut i: usize = 0;
                while i < flows.len()
                    invariant
                        i <= flows@.len(),
                        !self@.contains_key("-"@),
                        r@.len() == i + 1,
                        names == flows@.map_values(|f: Flow| f.name@),
                        want == retirement_row(self@, names),
                        want.len() == flows@.len() + 1,
                        forall|j: int| 0 <= j < r@.len() ==> (#[trigger] r@[j])@ == want[j],
                    decreases flows@.len() - i,
                {
                    let ghost before = r@;
                    match self.get(flows[i].name.as_str()) {
                        Some(v) => r.push(v),
                        None => r.push(String::from_str("-")),
                    }
                    proof {
                        assert(names[i as int] == flows@[i as int].name@);
                        assert(r@[i + 1]@ == want[i + 1]);
                        assert forall|j: int| 0 <= j < r@.len() implies (#[trigger] r@[j])@ == want[j] by {
                            if j <= i {
                                assert(r@[j] == before[j]);
                            }
                        }
                    }
                    i = i + 1;
                }
            },
        }
        assert(r@.map_values(|x: String| x@) =~= want);
        r
    }

    pub fn contains_key(&self, k: &str) -> (r: bool)
        ensures
            r == self@.contains_key(k@),
    {
        self.get(k).is_some()
    }
}

} // verus!
