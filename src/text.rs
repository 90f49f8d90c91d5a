//! Textual substitution on code templates, and the decimal rendering of
//! numbers used in node names and reports.
use vstd::prelude::*;
use vstd::string::*;

verus! {

/// `s` with each match of `pat`, scanning from the left and never
/// overlapping, replaced by `rep`.
pub open spec fn replaced_all(s: Seq<char>, pat: Seq<char>, rep: Seq<char>) -> Seq<char>
    decreases s.len(),
{
    if pat.len() == 0 || s.len() < pat.len() {
        s
    } else if s.subrange(0, pat.len() as int) == pat {
        rep + replaced_all(s.subrange(pat.len() as int, s.len() as int), pat, rep)
    } else {
        seq![s[0]] + replaced_all(s.subrange(1, s.len() as int), pat, rep)
    }
}

/// `s` with its leftmost match of `pat`, if any, replaced by `rep`.
pub open spec fn replaced_first(s: Seq<char>, pat: Seq<char>, rep: Seq<char>) -> Seq<char>
    decreases s.len(),
{
    if pat.len() == 0 || s.len() < pat.len() {
        s
    } else if s.subrange(0, pat.len() as int) == pat {
        rep + s.subrange(pat.len() as int, s.len() as int)
    } else {
        seq![s[0]] + replaced_first(s.subrange(1, s.len() as int), pat, rep)
    }
}

/// The character of a decimal digit.
pub open spec fn digit(d: nat) -> char {
    seq!['0', '1', '2', '3', '4', '5', '6', '7', '8', '9'][d as int]
}

/// Decimal digits of `n`, without leading zeros.
pub open spec fn decimal(n: nat) -> Seq<char>
    decreases n,
{
    if n < 10 {
        seq![digit(n)]
    } else {
        decimal(n / 10).push(digit(n % 10))
    }
}

pub proof fn lemma_decimal_nonempty(n: nat)
    ensures
        decimal(n).len() > 0,
    decreases n,
{
    if n >= 10 {
        lemma_decimal_nonempty(n / 10);
    }
}

/// `s` left-padded with zeros to at least three characters.
pub open spec fn padded3(s: Seq<char>) -> Seq<char> {
    if s.len() >= 3 {
        s
    } else if s.len() == 2 {
        seq!['0'] + s
    } else if s.len() == 1 {
        seq!['0', '0'] + s
    } else {
        seq!['0', '0', '0']
    }
}

/// `s` between an opening and a closing brace, each on its own line.
pub open spec fn block(s: Seq<char>) -> Seq<char> {
    seq!['{', '\n'] + s + seq!['\n', '}']
}

/// Relies on `str::replace`: with a non-empty pattern, every match, taken
/// from the left without overlap, is replaced.
#[verifier::external_body]
pub(crate) fn replace_all(s: &str, pat: &str, rep: &str) -> (r: String)
    requires
        pat@.len() > 0,
    ensures
        r@ == replaced_all(s@, pat@, rep@),
{
    s.replace(pat, rep)
}

/// Relies on `str::replacen` with a count of one: only the leftmost match is
/// replaced.
#[verifier::external_body]
pub(crate) fn replace_first(s: &str, pat: &str, rep: &str) -> (r: String)
    requires
        pat@.len() > 0,
    ensures
        r@ == replaced_first(s@, pat@, rep@),
{
    s.replacen(pat, rep, 1)
}

/// Relies on the `Display` of `usize` (through `to_string`): its decimal
/// digits, without sign or leading zeros.
#[verifier::external_body]
pub(crate) fn decimal_text(n: usize) -> (r: String)
    ensures
        r@ == decimal(n as nat),
{
    n.to_string()
}

/// The decimal digits of `n`, left-padded with zeros to three characters.
pub fn padded_decimal(n: usize) -> (r: String)
    ensures
        r@ == padded3(decimal(n as nat)),
{
    proof {
        reveal_strlit("0");
        reveal_strlit("00");
        reveal_strlit("000");
        lemma_decimal_nonempty(n as nat);
    }
    let d = decimal_text(n);
    let len = d.as_str().unicode_len();
    if len >= 3 {
        d
    } else if len == 2 {
        let r = String::from_str("0").concat(d.as_str());
        assert(r@ =~= padded3(decimal(n as nat)));
        r
    } else {
        let r = String::from_str("00").concat(d.as_str());
        assert(r@ =~= padded3(decimal(n as nat)));
        r
    }
}

/// `s` wrapped as a block: `"{\n" + s + "\n}"`.
pub fn wrap_block(s: &str) -> (r: String)
    ensures
        r@ == block(s@),
{
    proof {
        reveal_strlit("{\n");
        reveal_strlit("\n}");
    }
    let r = String::from_str("{\n").concat(s).concat("\n}");
    assert(r@ =~= block(s@));
    r
}

} // verus!
