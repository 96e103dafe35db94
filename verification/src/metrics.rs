use vstd::prelude::*;

verus! {

/// One file's accumulated change volume and the people who changed it.
pub struct ChurnEntry {
    pub path: String,
    pub churn: usize,
    pub authors: Vec<String>,
}

/// Accumulated per-file change metrics for one repository scan: total changed
/// lines (churn) and the set of distinct author names, keyed by file path.
pub struct GitMetrics {
    entries: Vec<ChurnEntry>,
}

/// There is an entry for `path` in the sequence.
pub open spec fn spec_has_path(s: Seq<ChurnEntry>, path: Seq<char>) -> bool {
    exists|i: int| 0 <= i < s.len() && s[i].path@ == path
}

/// The index of the entry for `path` (unique when paths are distinct).
pub open spec fn spec_path_index(s: Seq<ChurnEntry>, path: Seq<char>) -> int {
    choose|i: int| 0 <= i < s.len() && s[i].path@ == path
}

/// No two entries share a path.
pub open spec fn spec_paths_unique(s: Seq<ChurnEntry>) -> bool {
    forall|i: int, j: int| 0 <= i < j < s.len() ==> s[i].path@ != s[j].path@
}

/// Each entry lists at least one author and lists no author twice.
pub open spec fn spec_authors_wf(s: Seq<ChurnEntry>) -> bool {
    &&& forall|k: int| 0 <= k < s.len() ==> (#[trigger] s[k].authors@).len() >= 1
    &&& forall|k: int, i: int, j: int|
        0 <= k < s.len() && 0 <= i < j < s[k].authors@.len() ==> #[trigger] s[k].authors@[i]@
            != #[trigger] s[k].authors@[j]@
}

/// The set of distinct author names in a list.
pub open spec fn spec_author_set(a: Seq<String>) -> Set<Seq<char>> {
    a.map_values(|x: String| x@).to_set()
}

/// The accumulated churn, as a map from file path to total changed lines.
pub open spec fn spec_churn_map(s: Seq<ChurnEntry>) -> Map<Seq<char>, nat> {
    Map::new(
        |p: Seq<char>| spec_has_path(s, p),
        |p: Seq<char>| s[spec_path_index(s, p)].churn as nat,
    )
}

/// The accumulated attributions, as a map from file path to author-name set.
pub open spec fn spec_authors_map(s: Seq<ChurnEntry>) -> Map<Seq<char>, Set<Seq<char>>> {
    Map::new(
        |p: Seq<char>| spec_has_path(s, p),
        |p: Seq<char>| spec_author_set(s[spec_path_index(s, p)].authors@),
    )
}

/// The file paths in insertion order.
pub open spec fn spec_paths_in_order(s: Seq<ChurnEntry>) -> Seq<Seq<char>> {
    s.map_values(|e: ChurnEntry| e.path@)
}

/// What one recorded change does to a churn map: the path's total grows by
/// `lines`, starting from zero for a path seen for the first time.
pub open spec fn spec_add_churn(m: Map<Seq<char>, nat>, path: Seq<char>, lines: nat) -> Map<
    Seq<char>,
    nat,
> {
    m.insert(path, (if m.dom().contains(path) { m[path] } else { 0 }) + lines)
}

/// What one recorded change does to an authors map: the author joins the
/// path's set, which starts empty for a path seen for the first time.
pub open spec fn spec_add_author(
    m: Map<Seq<char>, Set<Seq<char>>>,
    path: Seq<char>,
    author: Seq<char>,
) -> Map<Seq<char>, Set<Seq<char>>> {
    m.insert(path, (if m.dom().contains(path) { m[path] } else { Set::empty() }).insert(author))
}

/// An author name occurs in the list.
pub open spec fn spec_contains_str(s: Seq<String>, x: Seq<char>) -> bool {
    exists|i: int| 0 <= i < s.len() && s[i]@ == x
}

proof fn lemma_path_index_agrees(s: Seq<ChurnEntry>, i: int)
    requires
        spec_paths_unique(s),
        0 <= i < s.len(),
    ensures
        spec_path_index(s, s[i].path@) == i,
{
    let p = s[i].path@;
    assert(spec_has_path(s, p));
    let j = spec_path_index(s, p);
    assert(0 <= j < s.len() && s[j].path@ == p);
}

impl GitMetrics {
    /// Structural invariant: paths are distinct, author lists are nonempty
    /// and duplicate-free.
    pub open spec fn wf(self) -> bool {
        &&& spec_paths_unique(self@)
        &&& spec_authors_wf(self@)
    }

    /// Total changed lines per path.
    pub open spec fn churn(self) -> Map<Seq<char>, nat> {
        spec_churn_map(self@)
    }

    /// Distinct author names per path.
    pub open spec fn authors(self) -> Map<Seq<char>, Set<Seq<char>>> {
        spec_authors_map(self@)
    }

    /// An empty accumulator, ready for one repository scan.
    pub fn new() -> (r: GitMetrics)
        ensures
            r.wf(),
            r@ =~= Seq::<ChurnEntry>::empty(),
            r.churn() =~= Map::<Seq<char>, nat>::empty(),
            r.authors() =~= Map::<Seq<char>, Set<Seq<char>>>::empty(),
    {
        GitMetrics { entries: Vec::new() }
    }

    /// How many files have recorded changes.
    pub fn num_files(&self) -> (r: usize)
        ensures
            r == self@.len(),
    {
        self.entries.len()
    }

    /// Whether nothing was recorded.
    pub fn is_empty(&self) -> (r: bool)
        ensures
            r == (self@.len() == 0),
    {
        self.entries.len() == 0
    }

    /// The entry at a position, in insertion order.
    pub fn entry_at(&self, i: usize) -> (r: &ChurnEntry)
        requires
            i < self@.len(),
        ensures
            *r == self@[i as int],
    {
        &self.entries[i]
    }

    fn find_path(&self, path: &String) -> (r: Option<usize>)
        ensures
            match r {
                Some(i) => i < self@.len() && self@[i as int].path@ == path@,
                None => !spec_has_path(self@, path@),
            },
    {
        let mut i: usize = 0;
        while i < self.entries.len()
            invariant
                i <= self@.len(),
                forall|j: int| 0 <= j < i ==> self@[j].path@ != path@,
            decreases self@.len() - i,
        {
            if self.entries[i].path == *path {
                return Some(i);
            }
            i += 1;
        }
        None
    }

    /// The recorded churn for a path, if any change was recorded for it.
    pub fn churn_of(&self, path: &String) -> (r: Option<usize>)
        requires
            self.wf(),
        ensures
            match r {
                Some(c) => self.churn().dom().contains(path@) && c == self.churn()[path@],
                None => !self.churn().dom().contains(path@),
            },
    {
        match self.find_path(path) {
            Some(i) => {
                proof {
                    lemma_path_index_agrees(self@, i as int);
                }
                Some(self.entries[i].churn)
            },
            None => None,
        }
    }

    /// The number of distinct authors recorded for a path, if any.
    pub fn author_count_of(&self, path: &String) -> (r: Option<usize>)
        requires
            self.wf(),
        ensures
            match r {
                Some(c) => self.authors().dom().contains(path@) && c == self.authors()[path@].len(),
                None => !self.authors().dom().contains(path@),
            },
    {
        match self.find_path(path) {
            Some(i) => {
                proof {
                    lemma_path_index_agrees(self@, i as int);
                    lemma_author_set_len(self@[i as int].authors@);
                }
                Some(self.entries[i].authors.len())
            },
            None => None,
        }
    }

    /// The recorded paths, in insertion order.
    pub fn paths(&self) -> (r: Vec<String>)
        ensures
            r@.map_values(|p: String| p@) =~= spec_paths_in_order(self@),
    {
        let mut out: Vec<String> = Vec::new();
        let mut i: usize = 0;
        while i < self.entries.len()
            invariant
                i <= self@.len(),
                out@.len() == i,
                forall|j: int| 0 <= j < i ==> out@[j]@ == self@[j].path@,
            decreases self@.len() - i,
        {
            out.push(self.entries[i].path.clone());
            i += 1;
        }
        assert(out@.map_values(|p: String| p@) =~= spec_paths_in_order(self@));
        out
    }

    /// Record one change: `lines_changed` more changed lines for `path`,
    /// attributed to `author`.  Both the churn total and the author set are
    /// always updated together.
    pub fn add_change(&mut self, path: String, lines_changed: usize, author: String)
        requires
            old(self).wf(),
            spec_has_path(old(self)@, path@) ==> old(self).churn()[path@] + lines_changed
                <= usize::MAX,
        ensures
            final(self).wf(),
            final(self).churn() == spec_add_churn(old(self).churn(), path@, lines_changed as nat),
            final(self).authors() == spec_add_author(old(self).authors(), path@, author@),
            spec_paths_in_order(final(self)@) == (if spec_has_path(old(self)@, path@) {
                spec_paths_in_order(old(self)@)
            } else {
                spec_paths_in_order(old(self)@).push(path@)
            }),
    {
        let ghost s0 = self@;
        match self.find_path(&path) {
            Some(i) => {
                proof {
                    lemma_path_index_agrees(s0, i as int);
                }
                let mut e = self.entries.remove(i);
                e.churn = e.churn + lines_changed;
                if !contains_author(&e.authors, &author) {
                    e.authors.push(author);
                    proof {
                        lemma_author_set_push(s0[i as int].authors@, e.authors@.last());
                    }
                } else {
                    proof {
                        lemma_author_set_contains(e.authors@, author@);
                        assert(spec_author_set(e.authors@).insert(author@) =~= spec_author_set(
                            e.authors@,
                        ));
                    }
                }
                self.entries.insert(i, e);
                proof {
                    assert(self@ =~= s0.update(i as int, self@[i as int]));
                    lemma_update_entry(s0, i as int, self@[i as int]);
                }
            },
            None => {
                let mut authors: Vec<String> = Vec::new();
                authors.push(author);
                let e = ChurnEntry { path, churn: lines_changed, authors };
                self.entries.push(e);
                proof {
                    let al = self@.last().authors@;
                    assert forall|y: Seq<char>| spec_author_set(al).contains(y) implies y
                        == al[0]@ by {
                        lemma_author_set_contains(al, y);
                    }
                    assert(spec_author_set(al).contains(al[0]@)) by {
                        lemma_author_set_contains(al, al[0]@);
                    }
                    assert(spec_author_set(al) =~= Set::empty().insert(al[0]@));
                    lemma_push_entry(s0, self@.last());
                }
            },
        }
    }

    /// Fold one diff entry into the totals: a file whose comparison changed
    /// `additions + deletions` lines is recorded under that line count, and a
    /// file whose comparison changed no lines is not recorded at all.
    pub fn record_delta(&mut self, path: String, additions: usize, deletions: usize, author: String)
        requires
            old(self).wf(),
            additions + deletions <= usize::MAX,
            spec_has_path(old(self)@, path@) ==> old(self).churn()[path@] + additions + deletions
                <= usize::MAX,
        ensures
            final(self).wf(),
            additions + deletions > 0 ==> {
                &&& final(self).churn() == spec_add_churn(
                    old(self).churn(),
                    path@,
                    (additions + deletions) as nat,
                )
                &&& final(self).authors() == spec_add_author(old(self).authors(), path@, author@)
                &&& spec_paths_in_order(final(self)@) == (if spec_has_path(old(self)@, path@) {
                    spec_paths_in_order(old(self)@)
                } else {
                    spec_paths_in_order(old(self)@).push(path@)
                })
            },
            additions + deletions == 0 ==> *final(self) == *old(self),
    {
        if additions > 0 || deletions > 0 {
            self.add_change(path, additions + deletions, author);
        }
    }
}

impl View for GitMetrics {
    type V = Seq<ChurnEntry>;

    closed spec fn view(&self) -> Seq<ChurnEntry> {
        self.entries@
    }
}

fn contains_author(v: &Vec<String>, a: &String) -> (r: bool)
    ensures
        r == spec_contains_str(v@, a@),
{
    let mut i: usize = 0;
    while i < v.len()
        invariant
            i <= v@.len(),
            forall|j: int| 0 <= j < i ==> v@[j]@ != a@,
        decreases v@.len() - i,
    {
        if v[i] == *a {
            return true;
        }
        i += 1;
    }
    false
}

/// A duplicate-free author list has exactly as many distinct names as entries.
proof fn lemma_author_set_len(a: Seq<String>)
    requires
        forall|i: int, j: int| 0 <= i < j < a.len() ==> a[i]@ != a[j]@,
    ensures
        spec_author_set(a).len() == a.len(),
{
    let m = a.map_values(|x: String| x@);
    assert(m.no_duplicates());
    m.unique_seq_to_set();
}

proof fn lemma_author_set_contains(a: Seq<String>, x: Seq<char>)
    ensures
        spec_author_set(a).contains(x) <==> spec_contains_str(a, x),
{
    let m = a.map_values(|y: String| y@);
    if spec_contains_str(a, x) {
        let i = choose|i: int| 0 <= i < a.len() && a[i]@ == x;
        assert(m[i] == x);
        assert(m.contains(x));
    }
    if m.contains(x) {
        let i = choose|i: int| 0 <= i < m.len() && m[i] == x;
        assert(a[i]@ == x);
    }
}

proof fn lemma_author_set_push(a: Seq<String>, x: String)
    ensures
        spec_author_set(a.push(x)) =~= spec_author_set(a).insert(x@),
{
    let m = a.map_values(|y: String| y@);
    let mp = a.push(x).map_values(|y: String| y@);
    assert(mp =~= m.push(x@));
    assert forall|y: Seq<char>| mp.to_set().contains(y) implies m.to_set().insert(x@).contains(
        y,
    ) by {
        let i = choose|i: int| 0 <= i < mp.len() && mp[i] == y;
        if i < m.len() {
            assert(m.contains(y));
        }
    }
    assert forall|y: Seq<char>| m.to_set().insert(x@).contains(y) implies mp.to_set().contains(
        y,
    ) by {
        if y == x@ {
            assert(mp[m.len() as int] == y);
        } else {
            let i = choose|i: int| 0 <= i < m.len() && m[i] == y;
            assert(mp[i] == y);
        }
    }
}

/// Replacing the entry at `i` by one with the same path rewrites exactly that
/// path's churn and author set.
proof fn lemma_update_entry(s: Seq<ChurnEntry>, i: int, e: ChurnEntry)
    requires
        spec_paths_unique(s),
        0 <= i < s.len(),
        e.path@ == s[i].path@,
    ensures
        spec_paths_unique(s.update(i, e)),
        spec_churn_map(s.update(i, e)) == spec_churn_map(s).insert(e.path@, e.churn as nat),
        spec_authors_map(s.update(i, e)) == spec_authors_map(s).insert(
            e.path@,
            spec_author_set(e.authors@),
        ),
        spec_paths_in_order(s.update(i, e)) == spec_paths_in_order(s),
        spec_churn_map(s)[e.path@] == s[i].churn as nat,
        spec_authors_map(s)[e.path@] == spec_author_set(s[i].authors@),
{
    let t = s.update(i, e);
    assert forall|x: int, y: int| 0 <= x < y < t.len() implies t[x].path@ != t[y].path@ by {
        assert(s[x].path@ != s[y].path@);
    }
    lemma_path_index_agrees(s, i);
    lemma_path_index_agrees(t, i);
    assert forall|p: Seq<char>| spec_has_path(t, p) implies spec_has_path(s, p) by {
        let j = choose|j: int| 0 <= j < t.len() && t[j].path@ == p;
        assert(s[j].path@ == t[j].path@);
    }
    assert forall|p: Seq<char>| spec_has_path(s, p) implies spec_has_path(t, p) by {
        let j = choose|j: int| 0 <= j < s.len() && s[j].path@ == p;
        assert(t[j].path@ == s[j].path@);
    }
    assert forall|p: Seq<char>| spec_has_path(s, p) && p != e.path@ implies t[spec_path_index(
        t,
        p,
    )] == s[spec_path_index(s, p)] by {
        let j = spec_path_index(s, p);
        assert(0 <= j < s.len() && s[j].path@ == p);
        assert(j != i);
        assert(t[j].path@ == p);
        lemma_path_index_agrees(t, j);
    }
    assert(spec_churn_map(t) =~= spec_churn_map(s).insert(e.path@, e.churn as nat));
    assert(spec_authors_map(t) =~= spec_authors_map(s).insert(
        e.path@,
        spec_author_set(e.authors@),
    ));
    assert(spec_paths_in_order(t) =~= spec_paths_in_order(s));
}

/// Appending an entry with a fresh path adds exactly that path's churn and
/// author set, and puts the path last in insertion order.
proof fn lemma_push_entry(s: Seq<ChurnEntry>, e: ChurnEntry)
    requires
        spec_paths_unique(s),
        !spec_has_path(s, e.path@),
    ensures
        spec_paths_unique(s.push(e)),
        spec_churn_map(s.push(e)) == spec_churn_map(s).insert(e.path@, e.churn as nat),
        spec_authors_map(s.push(e)) == spec_authors_map(s).insert(
            e.path@,
            spec_author_set(e.authors@),
        ),
        spec_paths_in_order(s.push(e)) == spec_paths_in_order(s).push(e.path@),
        !spec_churn_map(s).dom().contains(e.path@),
        !spec_authors_map(s).dom().contains(e.path@),
{
    let t = s.push(e);
    assert forall|x: int, y: int| 0 <= x < y < t.len() implies t[x].path@ != t[y].path@ by {
        if y < s.len() {
            assert(s[x].path@ != s[y].path@);
        } else {
            assert(t[x] == s[x]);
        }
    }
    lemma_path_index_agrees(t, s.len() as int);
    assert forall|p: Seq<char>| spec_has_path(t, p) && p != e.path@ implies spec_has_path(s, p)
        && t[spec_path_index(t, p)] == s[spec_path_index(s, p)] by {
        let j = choose|j: int| 0 <= j < t.len() && t[j].path@ == p;
        assert(j != s.len());
        assert(s[j].path@ == p);
        lemma_path_index_agrees(t, j);
        lemma_path_index_agrees(s, j);
    }
    assert forall|p: Seq<char>| spec_has_path(s, p) implies spec_has_path(t, p) by {
        let j = choose|j: int| 0 <= j < s.len() && s[j].path@ == p;
        assert(t[j].path@ == p);
    }
    assert(spec_churn_map(t) =~= spec_churn_map(s).insert(e.path@, e.churn as nat));
    assert(spec_authors_map(t) =~= spec_authors_map(s).insert(
        e.path@,
        spec_author_set(e.authors@),
    ));
    assert(spec_paths_in_order(t) =~= spec_paths_in_order(s).push(e.path@));
}

/// Law: recording changes is commutative in call order.  Two recorded
/// changes yield the same churn totals and the same author sets whichever
/// of them is folded in first, so aggregation does not depend on the order
/// in which the history walk visits commits.
pub proof fn lemma_add_change_commutes(
    churn: Map<Seq<char>, nat>,
    authors: Map<Seq<char>, Set<Seq<char>>>,
    path1: Seq<char>,
    lines1: nat,
    author1: Seq<char>,
    path2: Seq<char>,
    lines2: nat,
    author2: Seq<char>,
)
    ensures
        spec_add_churn(spec_add_churn(churn, path1, lines1), path2, lines2) == spec_add_churn(
            spec_add_churn(churn, path2, lines2),
            path1,
            lines1,
        ),
        spec_add_author(spec_add_author(authors, path1, author1), path2, author2)
            == spec_add_author(spec_add_author(authors, path2, author2), path1, author1),
{
    if path1 == path2 {
        assert(spec_add_churn(spec_add_churn(churn, path1, lines1), path2, lines2)
            =~= spec_add_churn(spec_add_churn(churn, path2, lines2), path1, lines1));
        let s0 = if authors.dom().contains(path1) {
            authors[path1]
        } else {
            Set::<Seq<char>>::empty()
        };
        assert(s0.insert(author1).insert(author2) =~= s0.insert(author2).insert(author1));
        assert(spec_add_author(spec_add_author(authors, path1, author1), path2, author2)
            =~= spec_add_author(spec_add_author(authors, path2, author2), path1, author1));
    } else {
        assert(spec_add_churn(spec_add_churn(churn, path1, lines1), path2, lines2)
            =~= spec_add_churn(spec_add_churn(churn, path2, lines2), path1, lines1));
        assert(spec_add_author(spec_add_author(authors, path1, author1), path2, author2)
            =~= spec_add_author(spec_add_author(authors, path2, author2), path1, author1));
    }
}

} // verus!
