//! Synthesized code fragments, the pool they are sampled from, and programs.
use crate::text::{
    block, decimal, decimal_text, padded3, padded_decimal, replace_all, replaced_all, wrap_block,
};
use rand::Rng;
use vstd::prelude::*;
use vstd::string::*;

verus! {

/// The marker that a fragment's code leaves for the code it wraps.
pub open spec fn source_marker() -> Seq<char> {
    "SOURCE!()"@
}

/// The id of a fragment: `"<num, three digits at least>-<length>-<depth>"`.
pub open spec fn expr_id(num: nat, length: nat, depth: nat) -> Seq<char> {
    padded3(decimal(num)) + "-"@ + decimal(length) + "-"@ + decimal(depth)
}

/// A synthesized code fragment.
pub struct Expr {
    pub num: String,
    pub code: String,
    /// Number of flow applications from the root fragment.
    pub length: usize,
    /// Largest nesting of sampled fragments along this lineage.
    pub depth: usize,
    pub metadata: String,
}

impl Expr {
    pub fn new(num: usize, code: String, length: usize, depth: usize, metadata: String) -> (r: Self)
        ensures
            r.num@ == expr_id(num as nat, length as nat, depth as nat),
            r.code@ == code@,
            r.length == length,
            r.depth == depth,
            r.metadata@ == metadata@,
    {
        let id = padded_decimal(num).concat("-").concat(decimal_text(length).as_str()).concat(
            "-",
        ).concat(decimal_text(depth).as_str());
        Expr { num: id, code, length, depth, metadata }
    }

    /// The root fragment: the bare source marker, before any flow.
    pub fn source() -> (r: Self)
        ensures
            r.num@ == expr_id(0, 0, 0),
            r.code@ == source_marker(),
            r.length == 0,
            r.depth == 0,
            r.metadata@ == Seq::<char>::empty(),
    {
        Expr::new(0, String::from_str("SOURCE!()"), 0, 0, String::new())
    }

    /// The fragment's code with `src` in place of every source marker.
    pub fn fill_source(&self, src: &String) -> (r: String)
        ensures
            r@ == replaced_all(self.code@, source_marker(), src@),
    {
        proof {
            reveal_strlit("SOURCE!()");
        }
        replace_all(self.code.as_str(), "SOURCE!()", src.as_str())
    }

    pub fn duplicate(&self) -> (r: Self)
        ensures
            r == *self,
    {
        Expr {
            num: self.num.clone(),
            code: self.code.clone(),
            length: self.length,
            depth: self.depth,
            metadata: self.metadata.clone(),
        }
    }
}

/// The pool of accepted fragments that generic-expression markers sample.
pub struct Exprs(Vec<Expr>);

/// Relies on rand's `thread_rng` and `Rng::gen_range(0..n)`: an index below
/// `n`, which must be positive.
#[verifier::external_body]
fn random_index(n: usize) -> (r: usize)
    requires
        n > 0,
    ensures
        r < n,
{
    rand::thread_rng().gen_range(0..n)
}

impl Exprs {
    pub closed spec fn view(&self) -> Seq<Expr> {
        self.0@
    }

    pub fn new() -> (r: Self)
        ensures
            r@ == Seq::<Expr>::empty(),
    {
        Exprs(Vec::new())
    }

    pub fn push(&mut self, e: Expr)
        ensures
            final(self)@ == old(self)@.push(e),
    {
        self.0.push(e);
    }

    pub fn len(&self) -> (r: usize)
        ensures
            r == self@.len(),
    {
        self.0.len()
    }

    pub fn get(&self, i: usize) -> (r: &Expr)
        requires
            i < self@.len(),
        ensures
            *r == self@[i as int],
    {
        &self.0[i]
    }

    /// The position of a fragment of the pool, drawn at random.
    pub fn random_pick(&self) -> (r: usize)
        requires
            self@.len() > 0,
        ensures
            r < self@.len(),
    {
        random_index(self.0.len())
    }

    /// One fragment of the pool, drawn at random; `None` when it is empty.
    pub fn random_expr(&self) -> (r: Option<&Expr>)
        ensures
            r is None <==> self@.len() == 0,
            r is Some ==> exists|i: int| 0 <= i < self@.len() && *r->0 == self@[i],
    {
        if self.0.len() == 0 {
            None
        } else {
            let i = self.random_pick();
            let r = &self.0[i];
            assert(*r == self@[i as int]);
            Some(r)
        }
    }
}

/// A generated program.
pub struct Program {
    pub code: String,
}

impl Program {
    pub fn new(code: String, _metadata: String) -> (r: Self)
        ensures
            r.code@ == code@,
    {
        Program { code }
    }

    /// The text to hand to the tool.
    pub fn merge(&self) -> (r: String)
        ensures
            r@ == self.code@,
    {
        self.code.clone()
    }
}

/// A sampled fragment with `param` as its free variable, as a block.
pub open spec fn bound_block(e: Expr, param: Seq<char>) -> Seq<char> {
    block(replaced_all(e.code@, source_marker(), param))
}

/// The template pieces `texts` joined with, in place of the k-th marker,
/// pool fragment `picks[k]` bound to `params[k]`.
pub open spec fn filled(
    texts: Seq<Seq<char>>,
    params: Seq<Seq<char>>,
    pool: Seq<Expr>,
    picks: Seq<usize>,
) -> Seq<char>
    decreases params.len(),
{
    if params.len() == 0 {
        texts[0]
    } else {
        let k = params.len() - 1;
        filled(texts.drop_last(), params.drop_last(), pool, picks.drop_last()) + bound_block(
            pool[picks[k] as int],
            params[k],
        ) + texts[k + 1]
    }
}

/// `base` raised to one more than the depth of each picked fragment.
pub open spec fn picked_depth(base: nat, pool: Seq<Expr>, picks: Seq<usize>) -> nat
    decreases picks.len(),
{
    if picks.len() == 0 {
        base
    } else {
        let d = pool[picks.last() as int].depth + 1;
        let b = picked_depth(base, pool, picks.drop_last());
        if d > b {
            d as nat
        } else {
            b
        }
    }
}

/// Picking fragments shallower than `bound` from a base no deeper than
/// `bound` reaches at most `bound`.
pub proof fn lemma_picked_depth_bound(base: nat, pool: Seq<Expr>, picks: Seq<usize>, bound: nat)
    requires
        base <= bound,
        picks_in(picks, pool.len()),
        forall|i: int| 0 <= i < pool.len() ==> pool[i].depth < bound,
    ensures
        picked_depth(base, pool, picks) <= bound,
    decreases picks.len(),
{
    if picks.len() > 0 {
        lemma_picked_depth_bound(base, pool, picks.drop_last(), bound);
        assert(picks[picks.len() - 1] < pool.len());
    }
}

/// Each pick names a fragment of a pool of `n`.
pub open spec fn picks_in(picks: Seq<usize>, n: nat) -> bool {
    forall|k: int| 0 <= k < picks.len() ==> picks[k] < n
}

pub open spec fn views(s: Seq<String>) -> Seq<Seq<char>> {
    s.map_values(|x: String| x@)
}

/// Fills the generic-expression markers of a template, split into `texts`
/// around them with their parameter names `params`: the k-th marker becomes
/// fragment `picks[k]` of `pool` with its source marker bound to `params[k]`.
/// Returns the code and the depth: `depth` raised to one more than the depth
/// of each picked fragment.
pub fn fill_markers(
    texts: &Vec<String>,
    params: &Vec<String>,
    pool: &Exprs,
    picks: &Vec<usize>,
    depth: usize,
) -> (r: (String, usize))
    requires
        texts@.len() == params@.len() + 1,
        picks@.len() == params@.len(),
        picks_in(picks@, pool@.len()),
        forall|i: int| 0 <= i < pool@.len() ==> pool@[i].depth < usize::MAX,
    ensures
        r.0@ == filled(views(texts@), views(params@), pool@, picks@),
        r.1 == picked_depth(depth as nat, pool@, picks@),
{
    let mut code = texts[0].clone();
    let mut d = depth;
    let mut k: usize = 0;
    while k < params.len()
        invariant
            0 <= k <= params@.len(),
            texts@.len() == params@.len() + 1,
            picks@.len() == params@.len(),
            picks_in(picks@, pool@.len()),
            forall|i: int| 0 <= i < pool@.len() ==> pool@[i].depth < usize::MAX,
            code@ == filled(
                views(texts@).subrange(0, k + 1),
                views(params@).subrange(0, k as int),
                pool@,
                picks@.subrange(0, k as int),
            ),
            d == picked_depth(depth as nat, pool@, picks@.subrange(0, k as int)),
        decreases params@.len() - k,
    {
        let e = pool.get(picks[k]);
        let piece = wrap_block(e.fill_source(&params[k]).as_str());
        code = code.concat(piece.as_str()).concat(texts[k + 1].as_str());
        if e.depth + 1 > d {
            d = e.depth + 1;
        }
        proof {
            let t = views(texts@).subrange(0, k + 2);
            let p = views(params@).subrange(0, k + 1);
            let q = picks@.subrange(0, k + 1);
            assert(t.drop_last() =~= views(texts@).subrange(0, k + 1));
            assert(p.drop_last() =~= views(params@).subrange(0, k as int));
            assert(q.drop_last() =~= picks@.subrange(0, k as int));
        }
        k = k + 1;
    }
    proof {
        assert(views(texts@).subrange(0, k + 1) =~= views(texts@));
        assert(views(params@).subrange(0, k as int) =~= views(params@));
        assert(picks@.subrange(0, k as int) =~= picks@);
    }
    (code, d)
}

} // verus!
