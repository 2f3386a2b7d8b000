//! Taking the elements of a vector in order without shifting the rest.

use vstd::prelude::*;

verus! {

/// The vector in reverse order.
pub fn reversed<T>(v: Vec<T>) -> (res: Vec<T>)
    ensures
        res@ == v@.reverse(),
{
    let ghost orig = v@;
    let mut v = v;
    let mut res: Vec<T> = Vec::new();
    assert(orig.skip(orig.len() as int).reverse() =~= Seq::<T>::empty());
    while v.len() > 0
        invariant
            v@ == orig.take(v@.len() as int),
            v@.len() <= orig.len(),
            res@ == orig.skip(v@.len() as int).reverse(),
        decreases v@.len(),
    {
        let ghost n = v@.len() as int;
        let x = v.pop().unwrap();
        proof {
            assert(x == orig[n - 1]);
            assert(v@ =~= orig.take(n - 1));
        }
        res.push(x);
        assert(res@ =~= orig.skip(n - 1).reverse());
    }
    assert(orig.skip(0) =~= orig);
    res
}

/// Taking the last element of the reverse of what is left takes the next one.
pub proof fn lemma_reversed_rest<T>(s: Seq<T>, i: int)
    requires
        0 <= i < s.len(),
    ensures
        s.skip(i).reverse().len() > 0,
        s.skip(i).reverse().last() == s[i],
        s.skip(i).reverse().drop_last() == s.skip(i + 1).reverse(),
{
    assert(s.skip(i).reverse().drop_last() =~= s.skip(i + 1).reverse());
}

} // verus!
