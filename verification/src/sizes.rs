use vstd::prelude::*;

verus! {

/// One file's measured size signal, in hundredths of a unit (so a plain
/// code-line count `n` is stored as `100 * n`, and any oracle with two
/// decimal places of precision fits).
pub struct SizeEntry {
    pub path: String,
    pub size_centi: u64,
}

/// The size signal per repository-relative path.  A path absent here (file
/// deleted since, or filtered out) counts as size zero; callers never fail
/// on a miss.
pub struct SizeMap {
    entries: Vec<SizeEntry>,
}

/// There is a size recorded for `path`.
pub open spec fn spec_has_size(s: Seq<SizeEntry>, path: Seq<char>) -> bool {
    exists|i: int| 0 <= i < s.len() && s[i].path@ == path
}

/// The index of the size entry for `path` (unique when paths are distinct).
pub open spec fn spec_size_index(s: Seq<SizeEntry>, path: Seq<char>) -> int {
    choose|i: int| 0 <= i < s.len() && s[i].path@ == path
}

/// No two size entries share a path.
pub open spec fn spec_size_paths_unique(s: Seq<SizeEntry>) -> bool {
    forall|i: int, j: int| 0 <= i < j < s.len() ==> s[i].path@ != s[j].path@
}

/// The recorded sizes as a map from path to hundredths.
pub open spec fn spec_size_map(s: Seq<SizeEntry>) -> Map<Seq<char>, nat> {
    Map::new(
        |p: Seq<char>| spec_has_size(s, p),
        |p: Seq<char>| s[spec_size_index(s, p)].size_centi as nat,
    )
}

/// The largest recorded size in a sequence of entries, zero when empty.
pub open spec fn spec_size_max(s: Seq<SizeEntry>) -> nat
    decreases s.len(),
{
    if s.len() == 0 {
        0
    } else if spec_size_max(s.drop_last()) >= s.last().size_centi {
        spec_size_max(s.drop_last())
    } else {
        s.last().size_centi as nat
    }
}

/// The size a path contributes to scoring: its recorded value, or zero.
pub open spec fn spec_size_or_zero(m: Map<Seq<char>, nat>, path: Seq<char>) -> nat {
    if m.dom().contains(path) {
        m[path]
    } else {
        0
    }
}

proof fn lemma_size_index_agrees(s: Seq<SizeEntry>, i: int)
    requires
        spec_size_paths_unique(s),
        0 <= i < s.len(),
    ensures
        spec_size_index(s, s[i].path@) == i,
{
    let p = s[i].path@;
    assert(spec_has_size(s, p));
    let j = spec_size_index(s, p);
    assert(0 <= j < s.len() && s[j].path@ == p);
}

impl SizeMap {
    /// Structural invariant: paths are distinct.
    pub open spec fn wf(self) -> bool {
        spec_size_paths_unique(self@)
    }

    /// The recorded sizes, path to hundredths.
    pub open spec fn sizes(self) -> Map<Seq<char>, nat> {
        spec_size_map(self@)
    }

    /// An empty size map: every lookup yields zero.
    pub fn new() -> (r: SizeMap)
        ensures
            r.wf(),
            r@ =~= Seq::<SizeEntry>::empty(),
            r.sizes() =~= Map::<Seq<char>, nat>::empty(),
    {
        SizeMap { entries: Vec::new() }
    }

    /// How many paths have a recorded size.
    pub fn len(&self) -> (r: usize)
        ensures
            r == self@.len(),
    {
        self.entries.len()
    }

    fn find_path(&self, path: &String) -> (r: Option<usize>)
        ensures
            match r {
                Some(i) => i < self@.len() && self@[i as int].path@ == path@,
                None => !spec_has_size(self@, path@),
            },
    {
        let mut i: usize = 0;
        while i < self.entries.len()
            invariant
                i <= self@.len(),
                forall|j: int| 0 <= j < i ==> self@[j].path@ != path@,
            decreases self@.len() - i,
        {
            if self.entries[i].path == *path {
                return Some(i);
            }
            i += 1;
        }
        None
    }

    /// Record (or overwrite) the measured size of one path.
    pub fn set(&mut self, path: String, size_centi: u64)
        requires
            old(self).wf(),
        ensures
            final(self).wf(),
            final(self).sizes() == old(self).sizes().insert(path@, size_centi as nat),
    {
        let ghost s0 = self@;
        match self.find_path(&path) {
            Some(i) => {
                let mut e = self.entries.remove(i);
                e.size_centi = size_centi;
                self.entries.insert(i, e);
                proof {
                    lemma_size_index_agrees(s0, i as int);
                    let t = self@;
                    assert(t =~= s0.update(i as int, t[i as int]));
                    assert forall|x: int, y: int| 0 <= x < y < t.len() implies t[x].path@
                        != t[y].path@ by {
                        assert(s0[x].path@ != s0[y].path@);
                    }
                    assert forall|p: Seq<char>| spec_has_size(t, p) implies spec_has_size(
                        s0,
                        p,
                    ) by {
                        let j = choose|j: int| 0 <= j < t.len() && t[j].path@ == p;
                        assert(s0[j].path@ == t[j].path@);
                    }
                    assert forall|p: Seq<char>| spec_has_size(s0, p) implies spec_has_size(
                        t,
                        p,
                    ) by {
                        let j = choose|j: int| 0 <= j < s0.len() && s0[j].path@ == p;
                        assert(t[j].path@ == s0[j].path@);
                    }
                    assert forall|p: Seq<char>|
                        spec_has_size(s0, p) && p != path@ implies t[spec_size_index(t, p)]
                        == s0[spec_size_index(s0, p)] by {
                        let j = spec_size_index(s0, p);
                        assert(0 <= j < s0.len() && s0[j].path@ == p);
                        assert(j != i);
                        assert(t[j].path@ == p);
                        lemma_size_index_agrees(t, j);
                    }
                    lemma_size_index_agrees(t, i as int);
                    assert(spec_size_map(t) =~= spec_size_map(s0).insert(
                        path@,
                        size_centi as nat,
                    ));
                }
            },
            None => {
                self.entries.push(SizeEntry { path, size_centi });
                proof {
                    let t = self@;
                    assert forall|x: int, y: int| 0 <= x < y < t.len() implies t[x].path@
                        != t[y].path@ by {
                        if y < s0.len() {
                            assert(s0[x].path@ != s0[y].path@);
                        } else {
                            assert(t[x] == s0[x]);
                        }
                    }
                    lemma_size_index_agrees(t, s0.len() as int);
                    assert forall|p: Seq<char>|
                        spec_has_size(t, p) && p != t.last().path@ implies spec_has_size(s0, p)
                        && t[spec_size_index(t, p)] == s0[spec_size_index(s0, p)] by {
                        let j = choose|j: int| 0 <= j < t.len() && t[j].path@ == p;
                        assert(j != s0.len());
                        assert(s0[j].path@ == p);
                        lemma_size_index_agrees(t, j);
                        lemma_size_index_agrees(s0, j);
                    }
                    assert forall|p: Seq<char>| spec_has_size(s0, p) implies spec_has_size(
                        t,
                        p,
                    ) by {
                        let j = choose|j: int| 0 <= j < s0.len() && s0[j].path@ == p;
                        assert(t[j].path@ == p);
                    }
                    assert(spec_size_map(t) =~= spec_size_map(s0).insert(
                        path@,
                        size_centi as nat,
                    ));
                }
            },
        }
    }

    /// The size signal for a path: the recorded hundredths, or zero for a
    /// path with no recorded size.
    pub fn size_or_zero(&self, path: &String) -> (r: u64)
        requires
            self.wf(),
        ensures
            r == spec_size_or_zero(self.sizes(), path@),
    {
        match self.find_path(path) {
            Some(i) => {
                proof {
                    lemma_size_index_agrees(self@, i as int);
                }
                self.entries[i].size_centi
            },
            None => 0,
        }
    }

    /// The largest recorded size, in hundredths; zero when nothing is
    /// recorded.  The result is order-independent: it bounds every recorded
    /// size and, unless zero, is itself one of them.
    pub fn max_size_centi(&self) -> (r: u64)
        requires
            self.wf(),
        ensures
            r == spec_size_max(self@),
            forall|p: Seq<char>| self.sizes().dom().contains(p) ==> #[trigger] self.sizes()[p]
                <= r,
            r == 0 || exists|p: Seq<char>|
                self.sizes().dom().contains(p) && #[trigger] self.sizes()[p] == r,
    {
        let mut best: u64 = 0;
        let mut i: usize = 0;
        while i < self.entries.len()
            invariant
                self.wf(),
                i <= self@.len(),
                best == spec_size_max(self@.take(i as int)),
                forall|j: int| 0 <= j < i ==> #[trigger] self@[j].size_centi <= best,
                best == 0 || exists|j: int| 0 <= j < i && #[trigger] self@[j].size_centi == best,
            decreases self@.len() - i,
        {
            proof {
                assert(self@.take(i + 1).drop_last() =~= self@.take(i as int));
                assert(self@.take(i + 1).last() == self@[i as int]);
            }
            if self.entries[i].size_centi > best {
                best = self.entries[i].size_centi;
            }
            i += 1;
        }
        proof {
            assert(self@.take(self@.len() as int) =~= self@);
        }
        proof {
            assert forall|p: Seq<char>| self.sizes().dom().contains(p) implies #[trigger] self
                .sizes()[p] <= best by {
                let j = spec_size_index(self@, p);
                assert(0 <= j < self@.len() && self@[j].path@ == p);
                assert(self@[j].size_centi <= best);
            }
            if best != 0 {
                let j = choose|j: int| 0 <= j < self@.len() && #[trigger] self@[j].size_centi
                    == best;
                lemma_size_index_agrees(self@, j);
                assert(self.sizes().dom().contains(self@[j].path@));
                assert(self.sizes()[self@[j].path@] == best);
            }
        }
        best
    }
}

impl View for SizeMap {
    type V = Seq<SizeEntry>;

    closed spec fn view(&self) -> Seq<SizeEntry> {
        self.entries@
    }
}

} // verus!
