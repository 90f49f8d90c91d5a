//! The catalogs: vulnerability testcases and the flows that transform them.
use crate::ir::{
    expr_id, fill_markers, filled, picked_depth, picks_in, source_marker, views, Expr,
    Exprs, Program,
};
use crate::text::{block, replace_all, replace_first, replaced_all, replaced_first, wrap_block};
use vstd::prelude::*;
use vstd::string::*;

verus! {

/// The tags of a testcase.
pub struct Tags {
    /// Severity.
    pub sp: String,
    /// Undefined-behaviour class.
    pub ub: String,
    /// Vulnerability type.
    pub ty: String,
}

/// One side of a testcase: the vulnerable source expression and the program
/// skeleton it goes into.
pub struct Case {
    pub src: String,
    pub code: String,
}

/// The program of a case with `expr` nested into it: the case's source goes
/// in place of the source marker of `expr`, and that, as a block, in place of
/// the source marker of the skeleton.
pub open spec fn nested(case: Case, expr: Seq<char>) -> Seq<char> {
    replaced_all(
        case.code@,
        source_marker(),
        block(replaced_all(expr, source_marker(), case.src@)),
    )
}

impl Case {
    /// Nests `expr` into the source, and that into the skeleton.
    pub fn nest(&self, expr: &String) -> (r: String)
        ensures
            r@ == nested(*self, expr@),
    {
        proof {
            reveal_strlit("SOURCE!()");
        }
        let inner = replace_all(expr.as_str(), "SOURCE!()", self.src.as_str());
        let source = wrap_block(inner.as_str());
        replace_all(self.code.as_str(), "SOURCE!()", source.as_str())
    }
}

/// A known vulnerability pattern.
pub struct Testcase {
    pub desc: String,
    pub tags: Tags,
    pub features: Vec<String>,
    /// The data type under test.
    pub ty: String,
    /// The literal value under test.
    pub val: String,
    pub pos: Case,
    pub neg: Case,
}

impl Testcase {
    /// The positive and the negative program with `expr` nested in.
    pub fn into_programs(&self, expr: &String) -> (r: (Program, Program))
        ensures
            r.0.code@ == nested(self.pos, expr@),
            r.1.code@ == nested(self.neg, expr@),
    {
        let pos = Program::new(self.pos.nest(expr), String::new());
        let neg = Program::new(self.neg.nest(expr), String::new());
        (pos, neg)
    }
}

/// Indices, in order, of the testcases whose vulnerability type is `ty`.
pub open spec fn indices_of_type(tcs: Seq<Testcase>, ty: Seq<char>) -> Seq<usize>
    decreases tcs.len(),
{
    if tcs.len() == 0 {
        Seq::empty()
    } else {
        let prev = indices_of_type(tcs.drop_last(), ty);
        if tcs.last().tags.ty@ == ty {
            prev.push((tcs.len() - 1) as usize)
        } else {
            prev
        }
    }
}

/// The testcase catalog, indexed by position.
pub struct Testcases(pub Vec<Testcase>);

impl Testcases {
    pub open spec fn view(&self) -> Seq<Testcase> {
        self.0@
    }

    pub fn len(&self) -> (r: usize)
        ensures
            r == self@.len(),
    {
        self.0.len()
    }

    /// The indices of the testcases tagged with vulnerability type `ty`.
    pub fn filter_by_ty(&self, ty: &str) -> (r: Vec<usize>)
        ensures
            r@ == indices_of_type(self@, ty@),
    {
        let key = String::from_str(ty);
        let mut r: Vec<usize> = Vec::new();
        let mut i: usize = 0;
        while i < self.0.len()
            invariant
                i <= self@.len(),
                key@ == ty@,
                r@ == indices_of_type(self@.subrange(0, i as int), ty@),
            decreases self@.len() - i,
        {
            if self.0[i].tags.ty.eq(&key) {
                r.push(i);
            }
            proof {
                assert(self@.subrange(0, i + 1).drop_last() =~= self@.subrange(0, i as int));
            }
            i = i + 1;
        }
        proof {
            assert(self@.subrange(0, i as int) =~= self@);
        }
        r
    }
}

/// Position in `t` of its first `)`, unless a line break comes first.
pub open spec fn close_at(t: Seq<char>) -> Option<nat>
    decreases t.len(),
{
    if t.len() == 0 || t[0] == '\n' {
        None
    } else if t[0] == ')' {
        Some(0)
    } else {
        match close_at(t.drop_first()) {
            Some(k) => Some(k + 1),
            None => None,
        }
    }
}

/// The parameter of the generic-expression marker `EXPRE!(<param>)` that
/// starts `s`, if one does: the shortest one, on a single line.
pub open spec fn marker_param(s: Seq<char>) -> Option<Seq<char>> {
    if s.len() >= 7 && s.subrange(0, 7) == "EXPRE!("@ {
        match close_at(s.subrange(7, s.len() as int)) {
            Some(k) => Some(s.subrange(7, 7 + k as int)),
            None => None,
        }
    } else {
        None
    }
}

/// `s` split around its generic-expression markers, found from the left
/// without overlap: the texts between them, and their parameters.
pub open spec fn split_at_markers(s: Seq<char>) -> (Seq<Seq<char>>, Seq<Seq<char>>)
    decreases s.len(),
{
    if s.len() == 0 {
        (seq![Seq::empty()], Seq::empty())
    } else {
        match marker_param(s) {
            Some(p) => {
                if p.len() + 8 <= s.len() {
                    let rest = split_at_markers(s.subrange(p.len() + 8 as int, s.len() as int));
                    (seq![Seq::empty()] + rest.0, seq![p] + rest.1)
                } else {
                    (seq![s], Seq::empty())
                }
            },
            None => {
                let rest = split_at_markers(s.drop_first());
                (rest.0.update(0, seq![s[0]] + rest.0[0]), rest.1)
            },
        }
    }
}

/// One text more than markers.
pub proof fn lemma_split_lens(s: Seq<char>)
    ensures
        split_at_markers(s).0.len() == split_at_markers(s).1.len() + 1,
    decreases s.len(),
{
    if s.len() > 0 {
        match marker_param(s) {
            Some(p) => {
                if p.len() + 8 <= s.len() {
                    lemma_split_lens(s.subrange(p.len() + 8 as int, s.len() as int));
                }
            },
            None => {
                lemma_split_lens(s.drop_first());
            },
        }
    }
}

/// Relies on regex's `Regex::captures_iter` with the pattern
/// `EXPRE!\((.*?)\)`: its matches are leftmost, without overlap, each the
/// shortest from its start, with no line break inside; the first group of
/// each is returned, and the text between matches beside the groups.
#[verifier::external_body]
fn split_markers(code: &str) -> (r: (Vec<String>, Vec<String>))
    ensures
        views(r.0@) == split_at_markers(code@).0,
        views(r.1@) == split_at_markers(code@).1,
{
    let re = regex::Regex::new(r"EXPRE!\((.*?)\)").unwrap();
    let (mut texts, mut params, mut last) = (Vec::new(), Vec::new(), 0);
    for caps in re.captures_iter(code) {
        let whole = caps.get(0).unwrap();
        texts.push(code[last..whole.start()].to_string());
        params.push(caps[1].to_string());
        last = whole.end();
    }
    texts.push(code[last..].to_string());
    (texts, params)
}

/// A flow's template with everything but the generic-expression markers
/// filled: the source fragment as a block in place of the first source
/// marker, the testcase's type and value (as a block) in place of every type
/// and value marker, and `true` in place of every condition marker.
pub open spec fn prepared(flow_code: Seq<char>, src: Seq<char>, ty: Seq<char>, val: Seq<char>) -> Seq<char> {
    let a = replaced_first(flow_code, source_marker(), block(src));
    let b = replaced_all(a, "TYPE!()"@, ty);
    let c = replaced_all(b, "VALUE!()"@, block(val));
    replaced_all(c, "COND!()"@, "true"@)
}

/// The code of the fragment that `flow_code` makes of `src` for a testcase
/// of type `ty` and value `val`, its generic-expression markers filled from
/// `pool` as `picks` chooses.
pub open spec fn synthesized(
    flow_code: Seq<char>,
    src: Seq<char>,
    ty: Seq<char>,
    val: Seq<char>,
    pool: Seq<Expr>,
    picks: Seq<usize>,
) -> Seq<char> {
    let split = split_at_markers(prepared(flow_code, src, ty, val));
    filled(split.0, split.1, pool, picks)
}

/// The number of generic-expression markers in a prepared template.
pub open spec fn marker_count(flow_code: Seq<char>, src: Seq<char>, ty: Seq<char>, val: Seq<char>) -> nat {
    split_at_markers(prepared(flow_code, src, ty, val)).1.len()
}

/// A code transformation template.
pub struct Flow {
    pub name: String,
    pub code: String,
}

impl Flow {
    /// `r` is what the flow makes of `src` as node `num`, for some choice of
    /// pool fragments for its generic-expression markers.
    pub open spec fn produces(self, num: usize, src: Expr, pool: Seq<Expr>, case: Testcase, r: Expr) -> bool {
        &&& exists|picks: Seq<usize>|
            #![trigger synthesized(self.code@, src.code@, case.ty@, case.val@, pool, picks)]
            {
                &&& picks.len() == marker_count(self.code@, src.code@, case.ty@, case.val@)
                &&& picks_in(picks, pool.len())
                &&& r.code@ == synthesized(self.code@, src.code@, case.ty@, case.val@, pool, picks)
                &&& r.depth == picked_depth(src.depth as nat, pool, picks)
            }
        &&& r.num@ == expr_id(num as nat, r.length as nat, r.depth as nat)
        &&& r.length == src.length + 1
        &&& r.metadata@ == src.metadata@
    }

    pub fn duplicate(&self) -> (r: Self)
        ensures
            r == *self,
    {
        Flow { name: self.name.clone(), code: self.code.clone() }
    }

    /// The template with the source, type, value and condition markers
    /// filled.
    pub fn prepare(&self, src: &Expr, case: &Testcase) -> (r: String)
        ensures
            r@ == prepared(self.code@, src.code@, case.ty@, case.val@),
    {
        proof {
            reveal_strlit("SOURCE!()");
            reveal_strlit("TYPE!()");
            reveal_strlit("VALUE!()");
            reveal_strlit("COND!()");
        }
        let wrapped = wrap_block(src.code.as_str());
        let mut code = replace_first(self.code.as_str(), "SOURCE!()", wrapped.as_str());
        code = replace_all(code.as_str(), "TYPE!()", case.ty.as_str());
        let value = wrap_block(case.val.as_str());
        code = replace_all(code.as_str(), "VALUE!()", value.as_str());
        replace_all(code.as_str(), "COND!()", "true")
    }

    /// Applies the flow to `src`, as node `num` of the testcase's tree; each
    /// generic-expression marker takes a fragment of `exprs` drawn at random.
    pub fn into_expr(&self, num: usize, src: &Expr, exprs: &Exprs, case: &Testcase) -> (r: Expr)
        requires
            exprs@.len() > 0,
            src.length < usize::MAX,
            forall|i: int| 0 <= i < exprs@.len() ==> exprs@[i].depth < usize::MAX,
        ensures
            self.produces(num, *src, exprs@, *case, r),
    {
        let code = self.prepare(src, case);
        let (texts, params) = split_markers(code.as_str());
        proof {
            lemma_split_lens(code@);
        }
        let mut picks: Vec<usize> = Vec::new();
        while picks.len() < params.len()
            invariant
                picks@.len() <= params@.len(),
                picks_in(picks@, exprs@.len()),
                exprs@.len() > 0,
            decreases params@.len() - picks@.len(),
        {
            picks.push(exprs.random_pick());
        }
        let (filled_code, depth) = fill_markers(&texts, &params, exprs, &picks, src.depth);
        let r = Expr::new(num, filled_code, src.length + 1, depth, src.metadata.clone());
        assert(r.code@ == synthesized(self.code@, src.code@, case.ty@, case.val@, exprs@, picks@));
        r
    }
}

/// A copy of a flow catalog.
pub fn copy_flows(flows: &Vec<Flow>) -> (r: Vec<Flow>)
    ensures
        r@ == flows@,
{
    let mut r: Vec<Flow> = Vec::new();
    let mut i: usize = 0;
    while i < flows.len()
        invariant
            i <= flows@.len(),
            r@ == flows@.subrange(0, i as int),
        decreases flows@.len() - i,
    {
        r.push(flows[i].duplicate());
        proof {
            assert(r@ =~= flows@.subrange(0, i + 1));
        }
        i = i + 1;
    }
    proof {
        assert(r@ =~= flows@);
    }
    r
}

/// The configuration of a run: both catalogs and the length cap.
pub struct Config {
    pub testcases: Testcases,
    pub flows: Vec<Flow>,
    /// The largest number of nested flows in a variant.
    pub length: usize,
}

impl Config {
    pub fn new(testcases: Vec<Testcase>, flows: Vec<Flow>, length: usize) -> (r: Self)
        ensures
            r.testcases@ == testcases@,
            r.flows@ == flows@,
            r.length == length,
    {
        Config { testcases: Testcases(testcases), flows, length }
    }
}

} // verus!
