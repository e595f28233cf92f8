use vstd::prelude::*;

verus! {

/// `first ++ second` as a new vector.
pub fn concat_bytes(first: &[u8], second: &[u8]) -> (joined: Vec<u8>)
    ensures
        joined@ == first@ + second@,
{
    let mut joined: Vec<u8> = Vec::new();
    let mut i: usize = 0;
    while i < first.len()
        invariant
            i <= first@.len(),
            joined@ == first@.subrange(0, i as int),
        decreases first@.len() - i,
    {
        joined.push(first[i]);
        assert(first@.subrange(0, i + 1) =~= first@.subrange(0, i as int).push(first@[i as int]));
        i = i + 1;
    }
    assert(first@.subrange(0, first@.len() as int) =~= first@);
    let mut j: usize = 0;
    while j < second.len()
        invariant
            j <= second@.len(),
            joined@ == first@ + second@.subrange(0, j as int),
        decreases second@.len() - j,
    {
        joined.push(second[j]);
        assert(first@ + second@.subrange(0, j + 1) =~= (first@ + second@.subrange(0, j as int)).push(second@[j as int]));
        j = j + 1;
    }
    assert(second@.subrange(0, second@.len() as int) =~= second@);
    joined
}

} // verus!
