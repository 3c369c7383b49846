//! The set of artifacts still waiting for an attestation, keyed by digest.
use vstd::prelude::*;

verus! {

/// The mapping that a list of (digest, name) pairs with distinct digests
/// stands for.
pub open spec fn pairs_map(e: Seq<(Seq<u8>, Seq<char>)>) -> Map<Seq<u8>, Seq<char>> {
    Map::new(
        |d: Seq<u8>| exists|i: int| 0 <= i < e.len() && e[i].0 == d,
        |d: Seq<u8>| e[choose|i: int| 0 <= i < e.len() && e[i].0 == d].1,
    )
}

/// Whether no two pairs share a digest.
pub open spec fn distinct_keys(e: Seq<(Seq<u8>, Seq<char>)>) -> bool {
    forall|i: int, j: int| 0 <= i < e.len() && 0 <= j < e.len() && i != j ==> e[i].0 != e[j].0
}

proof fn lemma_pairs_map_at(e: Seq<(Seq<u8>, Seq<char>)>, k: int)
    requires
        distinct_keys(e),
        0 <= k < e.len(),
    ensures
        pairs_map(e).contains_key(e[k].0),
        pairs_map(e)[e[k].0] == e[k].1,
{
    let d = e[k].0;
    assert(pairs_map(e).dom().contains(d));
    let j = choose|i: int| 0 <= i < e.len() && e[i].0 == d;
    assert(j == k);
}

proof fn lemma_pairs_map_remove(e: Seq<(Seq<u8>, Seq<char>)>, k: int)
    requires
        distinct_keys(e),
        0 <= k < e.len(),
    ensures
        distinct_keys(e.remove(k)),
        pairs_map(e.remove(k)) == pairs_map(e).remove(e[k].0),
{
    let r = e.remove(k);
    let m = pairs_map(e).remove(e[k].0);
    assert forall|i: int| 0 <= i < r.len() implies #[trigger] r[i] == (if i < k { e[i] } else { e[i + 1] }) by {}
    assert forall|d: Seq<u8>| #[trigger] pairs_map(r).dom().contains(d) == m.dom().contains(d) by {
        if pairs_map(r).dom().contains(d) {
            let i = choose|i: int| 0 <= i < r.len() && r[i].0 == d;
            let ei = if i < k { i } else { i + 1 };
            assert(e[ei].0 == d);
        }
        if m.dom().contains(d) {
            let i = choose|i: int| 0 <= i < e.len() && e[i].0 == d;
            assert(i != k);
            let ri = if i < k { i } else { i - 1 };
            assert(r[ri].0 == d);
        }
    }
    assert(distinct_keys(r));
    assert forall|d: Seq<u8>| #[trigger] m.dom().contains(d) implies pairs_map(r)[d] == m[d] by {
        assert(pairs_map(r).dom().contains(d));
        let i = choose|i: int| 0 <= i < r.len() && r[i].0 == d;
        let ei = if i < k { i } else { i + 1 };
        lemma_pairs_map_at(e, ei);
        lemma_pairs_map_at(r, i);
    }
    assert(pairs_map(r) =~= m);
}

proof fn lemma_pairs_map_push(e: Seq<(Seq<u8>, Seq<char>)>, x: (Seq<u8>, Seq<char>))
    requires
        distinct_keys(e),
        !pairs_map(e).contains_key(x.0),
    ensures
        distinct_keys(e.push(x)),
        pairs_map(e.push(x)) == pairs_map(e).insert(x.0, x.1),
{
    let p = e.push(x);
    let m = pairs_map(e).insert(x.0, x.1);
    assert forall|i: int| 0 <= i < e.len() implies e[i].0 != x.0 by {
        assert(pairs_map(e).dom().contains(e[i].0));
    }
    assert forall|d: Seq<u8>| #[trigger] pairs_map(p).dom().contains(d) == m.dom().contains(d) by {
        if pairs_map(p).dom().contains(d) {
            let i = choose|i: int| 0 <= i < p.len() && p[i].0 == d;
            if i < e.len() {
                assert(e[i].0 == d);
            }
        }
        if m.dom().contains(d) {
            if d == x.0 {
                assert(p[e.len() as int].0 == d);
            } else {
                let i = choose|i: int| 0 <= i < e.len() && e[i].0 == d;
                assert(p[i].0 == d);
            }
        }
    }
    assert(distinct_keys(p));
    assert forall|d: Seq<u8>| #[trigger] m.dom().contains(d) implies pairs_map(p)[d] == m[d] by {
        if d == x.0 {
            lemma_pairs_map_at(p, e.len() as int);
        } else {
            let i = choose|i: int| 0 <= i < e.len() && e[i].0 == d;
            lemma_pairs_map_at(e, i);
            lemma_pairs_map_at(p, i);
        }
    }
    assert(pairs_map(p) =~= m);
}

/// Artifacts not yet matched, as (digest, file name) pairs with distinct
/// digests.
pub struct PendingSet {
    entries: Vec<(Vec<u8>, String)>,
}

/// Whether two byte vectors hold the same bytes.
fn same_bytes(a: &Vec<u8>, b: &Vec<u8>) -> (r: bool)
    ensures
        r == (a@ == b@),
{
    if a.len() != b.len() {
        return false;
    }
    let mut i: usize = 0;
    while i < a.len()
        invariant
            a.len() == b.len(),
            0 <= i <= a.len(),
            forall|j: int| 0 <= j < i ==> a@[j] == b@[j],
        decreases a.len() - i,
    {
        if a[i] != b[i] {
            return false;
        }
        i = i + 1;
    }
    assert(a@ =~= b@);
    true
}

impl PendingSet {
    /// The entries as plain values.
    pub closed spec fn pairs(&self) -> Seq<(Seq<u8>, Seq<char>)> {
        self.entries@.map_values(|p: (Vec<u8>, String)| (p.0@, p.1@))
    }

    /// The mapping from digest to file name.
    pub open spec fn view(&self) -> Map<Seq<u8>, Seq<char>> {
        pairs_map(self.pairs())
    }

    /// Every digest occurs once.
    pub open spec fn wf(&self) -> bool {
        distinct_keys(self.pairs())
    }

    /// An empty pending set.
    pub fn new() -> (r: PendingSet)
        ensures
            r.wf(),
            r.view() == Map::<Seq<u8>, Seq<char>>::empty(),
    {
        let r = PendingSet { entries: Vec::new() };
        assert(r.pairs() =~= Seq::<(Seq<u8>, Seq<char>)>::empty());
        assert(r.view() =~= Map::<Seq<u8>, Seq<char>>::empty());
        r
    }

    /// The position of the entry for `digest`, if there is one.
    fn find(&self, digest: &Vec<u8>) -> (r: Option<usize>)
        requires
            self.wf(),
        ensures
            match r {
                Some(k) => k < self.pairs().len() && self.pairs()[k as int].0 == digest@,
                None => !self.view().contains_key(digest@),
            },
    {
        let mut i: usize = 0;
        while i < self.entries.len()
            invariant
                0 <= i <= self.entries.len(),
                forall|j: int| 0 <= j < i ==> self.pairs()[j].0 != digest@,
            decreases self.entries.len() - i,
        {
            if same_bytes(&self.entries[i].0, digest) {
                return Some(i);
            }
            i = i + 1;
        }
        proof {
            if self.view().contains_key(digest@) {
                let j = choose|j: int| 0 <= j < self.pairs().len() && self.pairs()[j].0 == digest@;
                assert(self.pairs()[j].0 == digest@);
            }
        }
        None
    }

    /// Records `name` for `digest`, replacing any name it had.
    pub fn insert(&mut self, digest: Vec<u8>, name: String)
        requires
            old(self).wf(),
        ensures
            final(self).wf(),
            final(self).view() == old(self).view().insert(digest@, name@),
    {
        let ghost d = digest@;
        if let Some(k) = self.find(&digest) {
            proof {
                lemma_pairs_map_remove(self.pairs(), k as int);
            }
            self.entries.remove(k);
            proof {
                assert(self.pairs() =~= old(self).pairs().remove(k as int));
            }
        }
        let ghost before = self.pairs();
        let ghost mid = self.view();
        assert(!mid.contains_key(d));
        self.entries.push((digest, name));
        proof {
            assert(self.pairs() =~= before.push((d, name@)));
            lemma_pairs_map_push(before, (d, name@));
            assert(self.view() =~= old(self).view().insert(d, name@));
        }
    }

    /// Takes out the entry for `digest`, handing back its name.
    pub fn remove(&mut self, digest: &Vec<u8>) -> (r: Option<String>)
        requires
            old(self).wf(),
        ensures
            final(self).wf(),
            final(self).view() == old(self).view().remove(digest@),
            match r {
                Some(n) => old(self).view().contains_key(digest@) && n@ == old(self).view()[digest@],
                None => !old(self).view().contains_key(digest@),
            },
    {
        match self.find(digest) {
            Some(k) => {
                proof {
                    lemma_pairs_map_remove(self.pairs(), k as int);
                    lemma_pairs_map_at(self.pairs(), k as int);
                }
                let (_, name) = self.entries.remove(k);
                proof {
                    assert(self.pairs() =~= old(self).pairs().remove(k as int));
                }
                Some(name)
            },
            None => {
                assert(self.view().remove(digest@) =~= self.view());
                None
            },
        }
    }

    /// Whether every artifact has been matched.
    pub fn is_empty(&self) -> (r: bool)
        requires
            self.wf(),
        ensures
            r == (self.view().dom() == Set::<Seq<u8>>::empty()),
    {
        if self.entries.len() == 0 {
            assert(self.view().dom() =~= Set::<Seq<u8>>::empty());
            true
        } else {
            proof {
                lemma_pairs_map_at(self.pairs(), 0);
                assert(self.view().dom().contains(self.pairs()[0].0));
            }
            false
        }
    }

    /// The names of the entries, in the order the entries were recorded.
    pub fn names(&self) -> (r: Vec<String>)
        requires
            self.wf(),
        ensures
            r@.map_values(|s: String| s@).to_set() == self.view().values(),
            r.len() == self.view().dom().len(),
    {
        let mut out: Vec<String> = Vec::new();
        let mut i: usize = 0;
        while i < self.entries.len()
            invariant
                0 <= i <= self.entries.len(),
                out.len() == i,
                forall|j: int| 0 <= j < i ==> #[trigger] out@[j]@ == self.pairs()[j].1,
            decreases self.entries.len() - i,
        {
            out.push(self.entries[i].1.clone());
            i = i + 1;
        }
        proof {
            let names = out@.map_values(|s: String| s@);
            let ps = self.pairs();
            assert forall|n: Seq<char>| #[trigger] names.to_set().contains(n) == self.view().values().contains(n) by {
                if names.to_set().contains(n) {
                    let j = choose|j: int| 0 <= j < names.len() && names[j] == n;
                    lemma_pairs_map_at(ps, j);
                }
                if self.view().values().contains(n) {
                    let d = choose|d: Seq<u8>| self.view().dom().contains(d) && self.view()[d] == n;
                    let j = choose|j: int| 0 <= j < ps.len() && ps[j].0 == d;
                    lemma_pairs_map_at(ps, j);
                    assert(names[j] == n);
                }
            }
            assert(names.to_set() =~= self.view().values());
            lemma_distinct_keys_len(ps);
        }
        out
    }
}

/// A list of pairs with distinct digests has as many entries as its mapping.
proof fn lemma_distinct_keys_len(e: Seq<(Seq<u8>, Seq<char>)>)
    requires
        distinct_keys(e),
    ensures
        pairs_map(e).dom().finite(),
        pairs_map(e).dom().len() == e.len(),
    decreases e.len(),
{
    if e.len() == 0 {
        assert(pairs_map(e).dom() =~= Set::<Seq<u8>>::empty());
    } else {
        let k = e.len() - 1;
        lemma_pairs_map_remove(e, k);
        lemma_pairs_map_at(e, k);
        assert(e.remove(k) =~= e.drop_last());
        lemma_distinct_keys_len(e.remove(k));
        assert(pairs_map(e).dom() =~= pairs_map(e.remove(k)).dom().insert(e[k].0));
    }
}

} // verus!
