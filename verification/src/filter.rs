use vstd::prelude::*;
use vstd::string::StrSliceExecFns;

verus! {

/// `needle` occurs contiguously somewhere in `hay`.
pub open spec fn spec_contains(hay: Seq<char>, needle: Seq<char>) -> bool {
    exists|i: int|
        0 <= i && i + needle.len() <= hay.len() && #[trigger] hay.subrange(i, i + needle.len())
            == needle
}

/// Some pattern in the list occurs in `path`.
pub open spec fn spec_matches_any(path: Seq<char>, patterns: Seq<String>) -> bool {
    exists|i: int| 0 <= i < patterns.len() && spec_contains(path, #[trigger] patterns[i]@)
}

/// A path survives the filters: it matches some includes pattern (or there
/// are none), and it matches no excludes pattern.  Exclusion always wins.
pub open spec fn spec_path_passes(
    path: Seq<char>,
    includes: Seq<String>,
    excludes: Seq<String>,
) -> bool {
    (includes.len() == 0 || spec_matches_any(path, includes)) && !spec_matches_any(path, excludes)
}

fn matches_at(hay: &str, at: usize, needle: &str) -> (r: bool)
    requires
        at + needle@.len() <= hay@.len(),
        hay@.len() <= usize::MAX,
    ensures
        r == (hay@.subrange(at as int, at + needle@.len()) == needle@),
{
    let n = needle.unicode_len();
    let mut j: usize = 0;
    while j < n
        invariant
            n == needle@.len(),
            at + n <= hay@.len(),
            hay@.len() <= usize::MAX,
            j <= n,
            forall|k: int| 0 <= k < j ==> hay@[at + k] == needle@[k],
        decreases n - j,
    {
        if hay.get_char(at + j) != needle.get_char(j) {
            proof {
                assert(hay@.subrange(at as int, at + n)[j as int] == hay@[at + j]);
            }
            return false;
        }
        j += 1;
    }
    proof {
        assert(hay@.subrange(at as int, at + n) =~= needle@);
    }
    true
}

/// Whether one string occurs inside another, by character content; the
/// substring check the includes and excludes filters use.
pub fn contains_sub(hay: &str, needle: &str) -> (r: bool)
    ensures
        r == spec_contains(hay@, needle@),
{
    let h = hay.unicode_len();
    let n = needle.unicode_len();
    if n > h {
        return false;
    }
    if n == 0 {
        proof {
            assert(hay@.subrange(0, 0 + needle@.len() as int) =~= needle@);
            assert(spec_contains(hay@, needle@));
        }
        return true;
    }
    let mut i: usize = 0;
    while i <= h - n
        invariant
            h == hay@.len(),
            n == needle@.len(),
            1 <= n <= h,
            i <= h - n + 1,
            forall|k: int| 0 <= k < i ==> #[trigger] hay@.subrange(k, k + n) != needle@,
        decreases h - n + 1 - i,
    {
        if matches_at(hay, i, needle) {
            return true;
        }
        i += 1;
    }
    false
}

fn matches_any(path: &String, patterns: &Vec<String>) -> (r: bool)
    ensures
        r == spec_matches_any(path@, patterns@),
{
    let mut i: usize = 0;
    while i < patterns.len()
        invariant
            i <= patterns@.len(),
            forall|j: int| 0 <= j < i ==> !spec_contains(path@, #[trigger] patterns@[j]@),
        decreases patterns@.len() - i,
    {
        if contains_sub(path.as_str(), patterns[i].as_str()) {
            return true;
        }
        i += 1;
    }
    false
}

/// Decide whether one path survives the includes and excludes filters.
pub fn path_passes(path: &String, includes: &Vec<String>, excludes: &Vec<String>) -> (r: bool)
    ensures
        r == spec_path_passes(path@, includes@, excludes@),
{
    if includes.len() > 0 {
        if !matches_any(path, includes) {
            return false;
        }
    }
    !matches_any(path, excludes)
}

/// The filter predicate over whole strings, as one shared spec value.
pub open spec fn spec_passes_pred(includes: Seq<String>, excludes: Seq<String>) -> spec_fn(
    String,
) -> bool {
    |p: String| spec_path_passes(p@, includes, excludes)
}

/// Keep exactly the paths that survive the filters, in their given order.
/// This runs before the size estimator, so filtered-out paths end up with
/// size zero.
pub fn filter_paths(paths: &Vec<String>, includes: &Vec<String>, excludes: &Vec<String>) -> (r: Vec<
    String,
>)
    ensures
        r@ == paths@.filter(spec_passes_pred(includes@, excludes@)),
{
    let mut out: Vec<String> = Vec::new();
    let mut i: usize = 0;
    while i < paths.len()
        invariant
            i <= paths@.len(),
            out@ =~= paths@.take(i as int).filter(spec_passes_pred(includes@, excludes@)),
        decreases paths@.len() - i,
    {
        let ghost pred = spec_passes_pred(includes@, excludes@);
        proof {
            assert(paths@.take(i + 1) =~= paths@.take(i as int).push(paths@[i as int]));
            lemma_filter_push(paths@.take(i as int), pred, paths@[i as int]);
        }
        let ghost out_before = out@;
        if path_passes(&paths[i], includes, excludes) {
            out.push(paths[i].clone());
            proof {
                assert(pred(paths@[i as int]) == spec_path_passes(
                    paths@[i as int]@,
                    includes@,
                    excludes@,
                ));
                assert(out@ =~= out_before.push(paths@[i as int]));
                assert(out@ =~= paths@.take(i + 1).filter(pred));
            }
        } else {
            proof {
                assert(pred(paths@[i as int]) == spec_path_passes(
                    paths@[i as int]@,
                    includes@,
                    excludes@,
                ));
                assert(out@ =~= paths@.take(i + 1).filter(pred));
            }
        }
        i += 1;
    }
    proof {
        assert(paths@.take(paths@.len() as int) =~= paths@);
    }
    out
}

proof fn lemma_filter_push<A>(s: Seq<A>, pred: spec_fn(A) -> bool, x: A)
    ensures
        s.push(x).filter(pred) == (if pred(x) {
            s.filter(pred).push(x)
        } else {
            s.filter(pred)
        }),
{
    reveal(Seq::filter);
    assert(s.push(x).drop_last() =~= s);
    if pred(x) {
        assert(s.push(x).filter(pred) =~= s.filter(pred).push(x));
    }
}

} // verus!
