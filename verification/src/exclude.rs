//! The exclusion filter: an ordered collection of path prefixes. A candidate
//! path is excluded when it equals, or lies under, any held prefix; the test
//! depends only on which prefixes are held, never on their order.

use vstd::prelude::*;

use crate::bytes::{seq_starts_with, bytes_start_with};

verus! {

/// The byte separating path components (a backslash).
pub const PATH_SEPARATOR: u8 = 92;

/// `path` names a node strictly below `anc`: it extends `anc`, with a path
/// separator right after the ancestor's last byte.
pub open spec fn is_descendant_of(path: Seq<u8>, anc: Seq<u8>) -> bool {
    path.len() > anc.len() && path.take(anc.len() as int) == anc && path[anc.len() as int]
        == PATH_SEPARATOR
}

/// The ordered set of exclusion prefixes loaded from configuration.
pub struct ExclusionSet {
    prefixes: Vec<Vec<u8>>,
}

impl View for ExclusionSet {
    type V = Seq<Seq<u8>>;

    closed spec fn view(&self) -> Seq<Seq<u8>> {
        self.prefixes@.map_values(|p: Vec<u8>| p@)
    }
}

impl ExclusionSet {
    /// `path` equals or descends below some held prefix. Only membership
    /// matters: any reordering of the prefixes gives the same answer.
    pub open spec fn spec_excluded(self, path: Seq<u8>) -> bool {
        exists|p: Seq<u8>| self@.contains(p) && seq_starts_with(path, p)
    }

    pub fn new() -> (s: ExclusionSet)
        ensures
            s@ =~= Seq::<Seq<u8>>::empty(),
    {
        ExclusionSet { prefixes: Vec::new() }
    }

    pub fn push(&mut self, prefix: Vec<u8>)
        ensures
            final(self)@ =~= old(self)@.push(prefix@),
    {
        self.prefixes.push(prefix);
    }

    pub fn len(&self) -> (n: usize)
        ensures
            n == self@.len(),
    {
        self.prefixes.len()
    }

    /// The membership test used to filter every enumerated entry.
    pub fn is_excluded(&self, path: &Vec<u8>) -> (b: bool)
        ensures
            b == self.spec_excluded(path@),
    {
        let mut i: usize = 0;
        while i < self.prefixes.len()
            invariant
                i <= self@.len(),
                forall|k: int| 0 <= k < i ==> !seq_starts_with(path@, self@[k]),
            decreases self@.len() - i,
        {
            if bytes_start_with(path, &self.prefixes[i]) {
                assert(self@.contains(self@[i as int]));
                return true;
            }
            i = i + 1;
        }
        assert(!self.spec_excluded(path@)) by {
            assert(forall|p: Seq<u8>| self@.contains(p) ==> exists|k: int|
                0 <= k < self@.len() && self@[k] == p);
        }
        false
    }

    /// A path equal to a held prefix, or a descendant of one, is excluded.
    pub proof fn lemma_exclusion_covers(self, prefix: Seq<u8>, path: Seq<u8>)
        requires
            self@.contains(prefix),
            path == prefix || is_descendant_of(path, prefix),
        ensures
            self.spec_excluded(path),
    {
        if path == prefix {
            assert(path.take(prefix.len() as int) =~= prefix);
        }
        assert(seq_starts_with(path, prefix));
    }
}

} // verus!
