use vstd::prelude::*;
use vstd::string::StrSliceExecFns;

verus! {

/// Whether `path` ends in the extension `ext` (leading dot included),
/// with at least one character in front of it.
pub open spec fn spec_has_extension(path: Seq<char>, ext: Seq<char>) -> bool {
    path.len() > ext.len() && path.subrange(path.len() - ext.len(), path.len() as int) == ext
}

/// Compares the tail of `path` against `ext`, character by character.
pub fn has_extension(path: &str, ext: &str) -> (r: bool)
    ensures
        r == spec_has_extension(path@, ext@),
{
    let plen = path.unicode_len();
    let elen = ext.unicode_len();
    if plen <= elen {
        return false;
    }
    let mut i: usize = 0;
    while i < elen
        invariant
            plen == path@.len(),
            elen == ext@.len(),
            plen > elen,
            i <= elen,
            forall|j: int| 0 <= j < i ==> path@[plen - elen + j] == ext@[j],
        decreases elen - i,
    {
        let pc = path.get_char(plen - elen + i);
        let ec = ext.get_char(i);
        if pc != ec {
            proof {
                assert(path@.subrange(plen - elen, plen as int)[i as int] == path@[plen - elen
                    + i]);
            }
            return false;
        }
        i = i + 1;
    }
    proof {
        assert(path@.subrange(plen - elen, plen as int) =~= ext@);
    }
    true
}

} // verus!
