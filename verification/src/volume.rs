//! Per-volume directory counting. Each configured source root contributes
//! its volume prefix (the first two bytes of the path); the counter maps each
//! observed prefix to the number of directories processed under it. Keys are
//! exactly the prefixes observed, each held once.

use vstd::prelude::*;

use crate::bytes::{bytes_equal, clone_bytes};
use crate::stats::sat_add;

verus! {

/// The counter: one held pair per observed volume prefix.
pub struct VolumeCounter {
    entries: Vec<(Vec<u8>, u64)>,
}

/// No prefix is held twice.
spec fn keys_distinct(s: Seq<(Vec<u8>, u64)>) -> bool {
    forall|i: int, j: int| 0 <= i < j < s.len() ==> (#[trigger] s[i]).0@ != (#[trigger] s[j]).0@
}

/// The mapping the held pairs spell out.
spec fn as_map(s: Seq<(Vec<u8>, u64)>) -> Map<Seq<u8>, u64>
    decreases s.len(),
{
    if s.len() == 0 {
        Map::empty()
    } else {
        as_map(s.drop_last()).insert(s.last().0@, s.last().1)
    }
}

proof fn lemma_as_map_dom(s: Seq<(Vec<u8>, u64)>)
    ensures
        forall|k: Seq<u8>|
            #[trigger] as_map(s).dom().contains(k) <==> exists|i: int|
                0 <= i < s.len() && (#[trigger] s[i]).0@ == k,
    decreases s.len(),
{
    if s.len() > 0 {
        lemma_as_map_dom(s.drop_last());
        assert forall|k: Seq<u8>| #[trigger] as_map(s).dom().contains(k) implies exists|i: int|
            0 <= i < s.len() && (#[trigger] s[i]).0@ == k by {
            if k == s.last().0@ {
                assert(s[s.len() - 1].0@ == k);
            } else {
                assert(as_map(s.drop_last()).dom().contains(k));
                let i = choose|i: int|
                    0 <= i < s.drop_last().len() && (#[trigger] s.drop_last()[i]).0@ == k;
                assert(s.drop_last()[i] == s[i]);
                assert(s[i].0@ == k);
            }
        }
        assert forall|k: Seq<u8>| (exists|i: int| 0 <= i < s.len() && (#[trigger] s[i]).0@ == k)
            implies as_map(s).dom().contains(k) by {
            let i = choose|i: int| 0 <= i < s.len() && (#[trigger] s[i]).0@ == k;
            if i < s.len() - 1 {
                assert(s.drop_last()[i] == s[i]);
                assert(exists|m: int|
                    0 <= m < s.drop_last().len() && (#[trigger] s.drop_last()[m]).0@ == k);
                assert(as_map(s.drop_last()).dom().contains(k));
            }
        }
    }
}

proof fn lemma_as_map_at(s: Seq<(Vec<u8>, u64)>, i: int)
    requires
        keys_distinct(s),
        0 <= i < s.len(),
    ensures
        as_map(s).dom().contains(s[i].0@),
        as_map(s)[s[i].0@] == s[i].1,
    decreases s.len(),
{
    if i == s.len() - 1 {
        lemma_as_map_dom(s);
    } else {
        lemma_as_map_at(s.drop_last(), i);
        assert(s.drop_last()[i] == s[i]);
        assert(s[i].0@ != s.last().0@);
    }
}

proof fn lemma_as_map_update(s: Seq<(Vec<u8>, u64)>, i: int, pair: (Vec<u8>, u64))
    requires
        keys_distinct(s),
        0 <= i < s.len(),
        pair.0@ == s[i].0@,
    ensures
        as_map(s.update(i, pair)) == as_map(s).insert(pair.0@, pair.1),
    decreases s.len(),
{
    let t = s.update(i, pair);
    if i == s.len() - 1 {
        assert(t.drop_last() =~= s.drop_last());
        assert(t.last() == pair);
        assert(as_map(t) == as_map(s.drop_last()).insert(pair.0@, pair.1));
        assert(as_map(s) == as_map(s.drop_last()).insert(s.last().0@, s.last().1));
        assert(as_map(s).insert(pair.0@, pair.1) =~= as_map(s.drop_last()).insert(
            pair.0@,
            pair.1,
        ));
    } else {
        assert(t.drop_last() =~= s.drop_last().update(i, pair));
        assert(s.drop_last()[i] == s[i]);
        lemma_as_map_update(s.drop_last(), i, pair);
        assert(t.last() == s.last());
        assert(as_map(t) == as_map(s.drop_last()).insert(pair.0@, pair.1).insert(
            s.last().0@,
            s.last().1,
        ));
        assert(s[i].0@ != s.last().0@);
        assert(as_map(s.drop_last()).insert(pair.0@, pair.1).insert(s.last().0@, s.last().1)
            =~= as_map(s.drop_last()).insert(s.last().0@, s.last().1).insert(pair.0@, pair.1));
    }
}

impl View for VolumeCounter {
    type V = Map<Seq<u8>, u64>;

    closed spec fn view(&self) -> Map<Seq<u8>, u64> {
        as_map(self.entries@)
    }
}

impl VolumeCounter {
    /// Each prefix is held at most once.
    pub closed spec fn wf(&self) -> bool {
        keys_distinct(self.entries@)
    }

    pub fn new() -> (c: VolumeCounter)
        ensures
            c.wf(),
            c@ =~= Map::<Seq<u8>, u64>::empty(),
    {
        VolumeCounter { entries: Vec::new() }
    }

    fn find(&self, prefix: &Vec<u8>) -> (r: Option<usize>)
        ensures
            match r {
                Some(i) => i < self.entries@.len() && self.entries@[i as int].0@ == prefix@,
                None => forall|i: int|
                    0 <= i < self.entries@.len() ==> (#[trigger] self.entries@[i]).0@ != prefix@,
            },
    {
        let mut i: usize = 0;
        while i < self.entries.len()
            invariant
                i <= self.entries@.len(),
                forall|k: int| 0 <= k < i ==> (#[trigger] self.entries@[k]).0@ != prefix@,
            decreases self.entries@.len() - i,
        {
            if bytes_equal(&self.entries[i].0, prefix) {
                return Some(i);
            }
            i = i + 1;
        }
        None
    }

    /// Whether the prefix has been observed.
    pub fn contains(&self, prefix: &Vec<u8>) -> (b: bool)
        ensures
            b == self@.dom().contains(prefix@),
    {
        proof {
            lemma_as_map_dom(self.entries@);
        }
        match self.find(prefix) {
            Some(i) => {
                proof {
                    let ghost j = i as int;
                    assert(self.entries@[j].0@ == prefix@);
                }
                true
            },
            None => false,
        }
    }

    /// Note a prefix as observed, starting its directory count at zero; a
    /// prefix already held is left untouched.
    pub fn observe(&mut self, prefix: &Vec<u8>)
        requires
            old(self).wf(),
        ensures
            final(self).wf(),
            old(self)@.dom().contains(prefix@) ==> final(self)@ == old(self)@,
            !old(self)@.dom().contains(prefix@) ==> final(self)@ == old(self)@.insert(prefix@, 0),
    {
        proof {
            lemma_as_map_dom(self.entries@);
        }
        match self.find(prefix) {
            Some(_) => {
            },
            None => {
                let ghost before = self.entries@;
                let held = clone_bytes(prefix);
                self.entries.push((held, 0));
                proof {
                    assert(self.entries@.drop_last() =~= before);
                    assert forall|i: int, j: int| 0 <= i < j < self.entries@.len() implies (
                    #[trigger] self.entries@[i]).0@ != (#[trigger] self.entries@[j]).0@ by {
                        if j == self.entries@.len() - 1 {
                            assert(before[i].0@ != prefix@);
                        } else {
                            assert(before[i] == self.entries@[i]);
                            assert(before[j] == self.entries@[j]);
                        }
                    }
                }
            },
        }
    }

    /// Add one to the count of directories processed under a held prefix; an
    /// unobserved prefix changes nothing.
    pub fn increment(&mut self, prefix: &Vec<u8>)
        requires
            old(self).wf(),
        ensures
            final(self).wf(),
            old(self)@.dom().contains(prefix@) ==> final(self)@ == old(self)@.insert(
                prefix@,
                sat_add(old(self)@[prefix@], 1),
            ),
            !old(self)@.dom().contains(prefix@) ==> final(self)@ == old(self)@,
    {
        proof {
            lemma_as_map_dom(self.entries@);
        }
        match self.find(prefix) {
            Some(i) => {
                let ghost before = self.entries@;
                let held = clone_bytes(&self.entries[i].0);
                let count = self.entries[i].1;
                let bumped = if count == u64::MAX {
                    count
                } else {
                    count + 1
                };
                self.entries.set(i, (held, bumped));
                proof {
                    lemma_as_map_at(before, i as int);
                    lemma_as_map_update(before, i as int, self.entries@[i as int]);
                    assert forall|a: int, b: int| 0 <= a < b < self.entries@.len() implies (
                    #[trigger] self.entries@[a]).0@ != (#[trigger] self.entries@[b]).0@ by {
                        assert(before[a].0@ == self.entries@[a].0@);
                        assert(before[b].0@ == self.entries@[b].0@);
                    }
                }
            },
            None => {
            },
        }
    }

    /// The directory count held for a prefix, if the prefix was observed.
    pub fn count_for(&self, prefix: &Vec<u8>) -> (r: Option<u64>)
        requires
            self.wf(),
        ensures
            match r {
                Some(c) => self@.dom().contains(prefix@) && c == self@[prefix@],
                None => !self@.dom().contains(prefix@),
            },
    {
        proof {
            lemma_as_map_dom(self.entries@);
        }
        match self.find(prefix) {
            Some(i) => {
                proof {
                    lemma_as_map_at(self.entries@, i as int);
                }
                Some(self.entries[i].1)
            },
            None => None,
        }
    }

    /// How many distinct prefixes have been observed.
    pub fn len(&self) -> (n: usize)
        requires
            self.wf(),
        ensures
            n == self@.dom().len(),
    {
        proof {
            lemma_as_map_len(self.entries@);
        }
        self.entries.len()
    }
}

/// Byte-lexicographic order on prefixes: the order reports are rendered in.
pub open spec fn lex_le(a: Seq<u8>, b: Seq<u8>) -> bool
    decreases a.len(),
{
    if a.len() == 0 {
        true
    } else if b.len() == 0 {
        false
    } else if a[0] < b[0] {
        true
    } else if a[0] > b[0] {
        false
    } else {
        lex_le(a.skip(1), b.skip(1))
    }
}

proof fn lemma_lex_skip(a: Seq<u8>, b: Seq<u8>, i: int)
    requires
        0 <= i <= a.len(),
        i <= b.len(),
        forall|k: int| 0 <= k < i ==> a[k] == b[k],
    ensures
        lex_le(a, b) == lex_le(a.skip(i), b.skip(i)),
    decreases i,
{
    if i > 0 {
        lemma_lex_skip(a.skip(1), b.skip(1), i - 1);
        assert(a.skip(1).skip(i - 1) =~= a.skip(i));
        assert(b.skip(1).skip(i - 1) =~= b.skip(i));
        assert(a.skip(0) =~= a);
        assert(b.skip(0) =~= b);
    } else {
        assert(a.skip(0) =~= a);
        assert(b.skip(0) =~= b);
    }
}

proof fn lemma_lex_total(a: Seq<u8>, b: Seq<u8>)
    ensures
        lex_le(a, b) || lex_le(b, a),
    decreases a.len(),
{
    if a.len() > 0 && b.len() > 0 && a[0] == b[0] {
        lemma_lex_total(a.skip(1), b.skip(1));
    }
}

proof fn lemma_lex_trans(a: Seq<u8>, b: Seq<u8>, c: Seq<u8>)
    requires
        lex_le(a, b),
        lex_le(b, c),
    ensures
        lex_le(a, c),
    decreases a.len(),
{
    if a.len() > 0 && b.len() > 0 && c.len() > 0 && a[0] == b[0] && b[0] == c[0] {
        lemma_lex_trans(a.skip(1), b.skip(1), c.skip(1));
    }
}

/// Does `a` sort at or before `b`, comparing bytes lexicographically?
pub fn bytes_lex_le(a: &Vec<u8>, b: &Vec<u8>) -> (r: bool)
    ensures
        r == lex_le(a@, b@),
{
    let mut i: usize = 0;
    while i < a.len() && i < b.len()
        invariant
            i <= a@.len(),
            i <= b@.len(),
            forall|k: int| 0 <= k < i ==> a@[k] == b@[k],
        decreases a@.len() - i,
    {
        if a[i] < b[i] {
            proof {
                lemma_lex_skip(a@, b@, i as int);
            }
            return true;
        }
        if a[i] > b[i] {
            proof {
                lemma_lex_skip(a@, b@, i as int);
            }
            return false;
        }
        i = i + 1;
    }
    proof {
        lemma_lex_skip(a@, b@, i as int);
    }
    a.len() <= b.len()
}

/// The sequence is in byte-lexicographic order.
pub open spec fn prefixes_sorted(s: Seq<Seq<u8>>) -> bool {
    forall|i: int, j: int| 0 <= i < j < s.len() ==> lex_le(#[trigger] s[i], #[trigger] s[j])
}

/// The views of a sequence of byte vectors.
pub open spec fn prefix_views(s: Seq<Vec<u8>>) -> Seq<Seq<u8>> {
    s.map_values(|p: Vec<u8>| p@)
}

impl VolumeCounter {
    /// The observed prefixes in the order reports render them: sorted
    /// byte-lexicographically, each exactly once.
    pub fn sorted_prefixes(&self) -> (r: Vec<Vec<u8>>)
        requires
            self.wf(),
        ensures
            r@.len() == self@.dom().len(),
            prefixes_sorted(prefix_views(r@)),
            forall|i: int| 0 <= i < r@.len() ==> self@.dom().contains((#[trigger] r@[i])@),
            forall|i: int, j: int| 0 <= i < j < r@.len() ==> (#[trigger] r@[i])@ != (#[trigger] r@[j])@,
    {
        proof {
            lemma_as_map_len(self.entries@);
            lemma_as_map_dom(self.entries@);
        }
        let mut out: Vec<Vec<u8>> = Vec::new();
        let mut i: usize = 0;
        while i < self.entries.len()
            invariant
                self.wf(),
                i <= self.entries@.len(),
                out@.len() == i,
                prefixes_sorted(prefix_views(out@)),
                forall|k: int|
                    0 <= k < out@.len() ==> exists|m: int|
                        0 <= m < i && (#[trigger] out@[k])@ == self.entries@[m].0@,
                forall|k1: int, k2: int|
                    0 <= k1 < k2 < out@.len() ==> (#[trigger] out@[k1])@ != (#[trigger] out@[k2])@,
            decreases self.entries@.len() - i,
        {
            let p = clone_bytes(&self.entries[i].0);
            let ghost before = out@;
            // Find the first held prefix that sorts after the new one.
            let mut pos: usize = 0;
            while pos < out.len() && bytes_lex_le(&out[pos], &p)
                invariant
                    pos <= out@.len(),
                    out@ == before,
                    forall|k: int| 0 <= k < pos ==> lex_le((#[trigger] out@[k])@, p@),
                decreases out@.len() - pos,
            {
                pos = pos + 1;
            }
            proof {
                // The first held prefix at or past the insertion point, if
                // any, sorts strictly after the new one.
                if (pos as int) < before.len() {
                    assert(!lex_le(before[pos as int]@, p@));
                    lemma_lex_total(before[pos as int]@, p@);
                }
                // Sortedness of the held prefixes, element by element.
                assert forall|u: int, v: int| 0 <= u < v < before.len() implies lex_le(
                    (#[trigger] before[u])@,
                    (#[trigger] before[v])@,
                ) by {
                    assert(prefix_views(before)[u] == before[u]@);
                    assert(prefix_views(before)[v] == before[v]@);
                }
            }
            out.insert(pos, p);
            proof {
                let now = out@;
                assert(now == before.insert(pos as int, p));
                assert(p@ == self.entries@[i as int].0@);
                // The new element differs from every element already held.
                assert forall|k: int| 0 <= k < before.len() implies (#[trigger] before[k])@ != p@ by {
                    let m = choose|m: int| 0 <= m < i && before[k]@ == self.entries@[m].0@;
                    assert(self.entries@[m].0@ != self.entries@[i as int].0@);
                }
                assert forall|k1: int, k2: int| 0 <= k1 < k2 < now.len() implies lex_le(
                    (#[trigger] now[k1])@,
                    (#[trigger] now[k2])@,
                ) && now[k1]@ != now[k2]@ by {
                    let a = if k1 < pos as int {
                        before[k1]
                    } else if k1 == pos as int {
                        p
                    } else {
                        before[k1 - 1]
                    };
                    let b = if k2 < pos as int {
                        before[k2]
                    } else if k2 == pos as int {
                        p
                    } else {
                        before[k2 - 1]
                    };
                    assert(now[k1] == a);
                    assert(now[k2] == b);
                    if k1 == pos as int {
                        // The new element sorts at or before everything past
                        // the insertion point.
                        assert(lex_le(p@, before[pos as int]@));
                        if k2 - 1 > pos as int {
                            assert(lex_le(before[pos as int]@, before[k2 - 1]@));
                            lemma_lex_trans(p@, before[pos as int]@, before[k2 - 1]@);
                        }
                        assert(before[k2 - 1]@ != p@);
                    } else if k2 == pos as int {
                        assert(lex_le(before[k1]@, p@));
                        assert(before[k1]@ != p@);
                    } else if k1 < pos as int && k2 > pos as int {
                        assert(lex_le(before[k1]@, before[k2 - 1]@));
                    }
                }
                assert forall|u: int, v: int| 0 <= u < v < prefix_views(now).len() implies lex_le(
                    #[trigger] prefix_views(now)[u],
                    #[trigger] prefix_views(now)[v],
                ) by {
                    assert(prefix_views(now)[u] == now[u]@);
                    assert(prefix_views(now)[v] == now[v]@);
                }
                assert(prefixes_sorted(prefix_views(out@)));
                assert forall|k: int| 0 <= k < out@.len() implies exists|m: int|
                    0 <= m < i + 1 && (#[trigger] out@[k])@ == self.entries@[m].0@ by {
                    if k == pos as int {
                        assert(out@[k]@ == self.entries@[i as int].0@);
                    } else {
                        let kk = if k < pos as int {
                            k
                        } else {
                            k - 1
                        };
                        let m = choose|m: int| 0 <= m < i && (#[trigger] before[kk])@ == self.entries@[m].0@;
                        assert(out@[k]@ == self.entries@[m].0@);
                    }
                }
            }
            i = i + 1;
        }
        proof {
            assert forall|k: int| 0 <= k < out@.len() implies self@.dom().contains(
                (#[trigger] out@[k])@,
            ) by {
                let m = choose|m: int|
                    0 <= m < self.entries@.len() && (#[trigger] out@[k])@ == self.entries@[m].0@;
                assert(self.entries@[m].0@ == out@[k]@);
            }
        }
        out
    }
}

proof fn lemma_as_map_len(s: Seq<(Vec<u8>, u64)>)
    requires
        keys_distinct(s),
    ensures
        as_map(s).dom().len() == s.len(),
        as_map(s).dom().finite(),
    decreases s.len(),
{
    if s.len() > 0 {
        lemma_as_map_len(s.drop_last());
        lemma_as_map_dom(s.drop_last());
        assert(forall|i: int| 0 <= i < s.drop_last().len() ==> (#[trigger] s.drop_last()[i]).0@ == s[i].0@);
        assert(!as_map(s.drop_last()).dom().contains(s.last().0@));
    }
}

} // verus!
