//! Building the notices that the server sends.

use vstd::prelude::*;
use vstd::string::*;

verus! {

/// `a` and `b` written one after the other.
pub fn concat2(a: &str, b: &str) -> (r: String)
    ensures
        r@ == a@ + b@,
{
    let mut r = String::from_str(a);
    r.append(b);
    r
}

/// `a`, `b` and `c` written one after the other.
pub fn concat3(a: &str, b: &str, c: &str) -> (r: String)
    ensures
        r@ == a@ + b@ + c@,
{
    let mut r = String::from_str(a);
    r.append(b);
    r.append(c);
    r
}

/// In `p + a + q`, the part after `p` of `a`'s length is `a`.
pub proof fn lemma_between(p: Seq<char>, a: Seq<char>, q: Seq<char>)
    ensures
        (p + a + q).len() == p.len() + a.len() + q.len(),
        (p + a + q).subrange(p.len() as int, (p.len() + a.len()) as int) == a,
{
    assert((p + a + q).subrange(p.len() as int, (p.len() + a.len()) as int) =~= a);
}

/// Between the same two texts, different middles give different texts.
pub proof fn lemma_between_injective(p: Seq<char>, a: Seq<char>, b: Seq<char>, q: Seq<char>)
    requires
        p + a + q == p + b + q,
    ensures
        a == b,
{
    lemma_between(p, a, q);
    lemma_between(p, b, q);
}

} // verus!
