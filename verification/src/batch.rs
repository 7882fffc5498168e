//! Many packages, one after the other.

use crate::text::texts;
use vstd::prelude::*;

verus! {

/// The packages that could not be installed, given what came of the first ones.
pub open spec fn failed(names: Seq<Seq<char>>, results: Seq<bool>) -> Seq<Seq<char>>
    decreases results.len(),
{
    if results.len() == 0 {
        seq![]
    } else {
        let some = failed(names, results.drop_last());
        if results.last() {
            some
        } else {
            some.push(names[results.len() - 1])
        }
    }
}

/// The packages that could not be installed.
pub fn failures(names: &Vec<String>, results: &Vec<bool>) -> (r: Vec<String>)
    requires
        results@.len() <= names@.len(),
    ensures
        texts(r@) == failed(texts(names@), results@),
{
    let ghost all = texts(names@);
    let mut r: Vec<String> = Vec::new();
    let mut i: usize = 0;
    assert(texts(r@) =~= failed(all, results@.take(0)));
    while i < results.len()
        invariant
            i <= results@.len() <= names@.len(),
            all == texts(names@),
            texts(r@) == failed(all, results@.take(i as int)),
        decreases results@.len() - i,
    {
        let ghost had = r@;
        proof {
            assert(all[i as int] == names@[i as int]@);
            assert(results@.take(i + 1).drop_last() =~= results@.take(i as int));
        }
        if !results[i] {
            r.push(names[i].clone());
            assert(texts(r@) =~= texts(had).push(all[i as int]));
        }
        i += 1;
    }
    assert(results@.take(i as int) =~= results@);
    r
}

/// A package is among the failures exactly if one of its installations failed.
pub proof fn failures_are_what_failed(names: Seq<Seq<char>>, results: Seq<bool>, name: Seq<char>)
    ensures
        failed(names, results).contains(name) <==> exists|k: int|
            0 <= k < results.len() && !(#[trigger] results[k]) && names[k] == name,
    decreases results.len(),
{
    if results.len() > 0 {
        let fewer = results.drop_last();
        let last = results.len() - 1;
        failures_are_what_failed(names, fewer, name);
        assert(forall|k: int| 0 <= k < last ==> fewer[k] == #[trigger] results[k]);
        let f = failed(names, results);
        let g = failed(names, fewer);
        if f.contains(name) {
            let i = choose|i: int| 0 <= i < f.len() && f[i] == name;
            if !results[last] && i == f.len() - 1 {
                assert(names[last] == name);
            } else {
                assert(g[i] == name);
            }
        }
        if exists|k: int| 0 <= k < results.len() && !(#[trigger] results[k]) && names[k] == name {
            let k = choose|k: int|
                0 <= k < results.len() && !(#[trigger] results[k]) && names[k] == name;
            if k == last {
                assert(f[f.len() - 1] == name);
            } else {
                assert(!fewer[k]);
                let i = choose|i: int| 0 <= i < g.len() && g[i] == name;
                assert(f[i] == name);
            }
        }
    }
}

} // verus!
