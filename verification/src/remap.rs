//! Source-to-target path remapping. A well-formed source path starts with a
//! one-byte volume letter followed by the volume separator. The target path
//! is the target base, then the volume letter, then everything after the
//! separator, so distinct sources under one base never collide.

use vstd::prelude::*;

verus! {

/// The byte separating a volume letter from the rest of a path (a colon).
pub const VOLUME_SEPARATOR: u8 = 58;

/// A path the remapper accepts: at least two bytes long, with the volume
/// separator in second position.
pub open spec fn wf_source_path(p: Seq<u8>) -> bool {
    p.len() >= 2 && p[1] == VOLUME_SEPARATOR
}

/// The remapped target path: target base, volume letter, then the source
/// path from its third byte on.
pub open spec fn spec_remap(p: Seq<u8>, base: Seq<u8>) -> Seq<u8> {
    base + seq![p[0]] + p.skip(2)
}

/// Derive the target-side path for a source path under the given target base.
pub fn remap(path: &Vec<u8>, base: &Vec<u8>) -> (t: Vec<u8>)
    requires
        wf_source_path(path@),
    ensures
        t@ == spec_remap(path@, base@),
{
    let mut t: Vec<u8> = Vec::new();
    let mut i: usize = 0;
    while i < base.len()
        invariant
            i <= base@.len(),
            t@ == base@.take(i as int),
        decreases base@.len() - i,
    {
        t.push(base[i]);
        i = i + 1;
    }
    assert(t@ == base@) by {
        assert(base@.take(base@.len() as int) =~= base@);
    }
    t.push(path[0]);
    let mut j: usize = 2;
    while j < path.len()
        invariant
            2 <= j <= path@.len(),
            path@.len() >= 2,
            t@ == base@ + seq![path@[0]] + path@.subrange(2, j as int),
        decreases path@.len() - j,
    {
        t.push(path[j]);
        assert(path@.subrange(2, j + 1 as int) =~= path@.subrange(2, j as int).push(path@[j as int]));
        j = j + 1;
    }
    assert(t@ =~= spec_remap(path@, base@)) by {
        assert(path@.subrange(2, path@.len() as int) =~= path@.skip(2));
    }
    t
}

/// Remapping is injective for well-formed source paths sharing one target
/// base: no two distinct sources map to the same target.
pub proof fn lemma_remap_injective(p: Seq<u8>, q: Seq<u8>, base: Seq<u8>)
    requires
        wf_source_path(p),
        wf_source_path(q),
        spec_remap(p, base) == spec_remap(q, base),
    ensures
        p == q,
{
    let rp = spec_remap(p, base);
    let rq = spec_remap(q, base);
    assert(rp.len() == base.len() + 1 + p.len() - 2);
    assert(rq.len() == base.len() + 1 + q.len() - 2);
    assert(p.len() == q.len());
    assert forall|k: int| 0 <= k < p.len() implies p[k] == q[k] by {
        if k == 0 {
            assert(p[0] == rp[base.len() as int]);
            assert(q[0] == rq[base.len() as int]);
        } else if k >= 2 {
            assert(p[k] == rp[base.len() + k - 1]);
            assert(q[k] == rq[base.len() + k - 1]);
        }
    }
    assert(p =~= q);
}

} // verus!
