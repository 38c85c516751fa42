//! The order and the equality of paths.
//!
//! Paths are kept as the texts that the configuration file gives. They are
//! ordered and told apart as std orders and tells apart paths: component by
//! component, so that `/a/b` comes before `/a.b`, and `/a` and `/a/` are one
//! path. The comparison itself is std's; what is proved here is proved from
//! the laws that std documents for every order.

use vstd::prelude::*;

verus! {

/// How one path stands to another.
#[derive(Clone, Copy, Debug, PartialEq, Eq, Structural)]
pub enum Rank {
    Before,
    Same,
    After,
}

impl Rank {
    /// The same finding, seen from the other path.
    pub open spec fn reversed(self) -> Rank {
        match self {
            Rank::Before => Rank::After,
            Rank::Same => Rank::Same,
            Rank::After => Rank::Before,
        }
    }
}

/// How std's order of paths ranks the path written `a` against the path
/// written `b`, on the platform that the library is built for.
pub uninterp spec fn path_rank(a: Seq<char>, b: Seq<char>) -> Rank;

/// `Ord::cmp` of std's `Path`, on the paths that the two texts stand for.
///
/// The result is std's ranking of the two paths. The other clauses are what
/// std documents of every `Ord`, said of this one comparison: seen from the
/// other side the ranking is reversed; paths that are equal rank alike against
/// any third; and both `<` and `>` are transitive.
#[verifier::external_body]
pub(crate) fn compare_paths(a: &str, b: &str) -> (rank: Rank)
    ensures
        rank == path_rank(a@, b@),
        rank.reversed() == path_rank(b@, a@),
        rank is Same ==> forall|c: Seq<char>| #[trigger] path_rank(a@, c) == path_rank(b@, c),
        rank is Before ==> forall|c: Seq<char>| #[trigger]
            path_rank(b@, c) is Before ==> path_rank(a@, c) is Before,
        rank is Before ==> forall|c: Seq<char>| #[trigger]
            path_rank(c, b@) is After ==> path_rank(c, a@) is After,
{
    match std::path::Path::new(a).cmp(std::path::Path::new(b)) {
        std::cmp::Ordering::Less => Rank::Before,
        std::cmp::Ordering::Equal => Rank::Same,
        std::cmp::Ordering::Greater => Rank::After,
    }
}

/// The two texts are the same text, or std ranks them as the same path.
pub open spec fn same_path(a: Seq<char>, b: Seq<char>) -> bool {
    a == b || path_rank(a, b) is Same
}

/// Each path stands before every later one, and every later one after it.
pub open spec fn paths_ascending(run: Seq<Seq<char>>) -> bool {
    forall|i: int, j: int|
        0 <= i < j < run.len() ==> path_rank(#[trigger] run[i], #[trigger] run[j]) is Before
            && path_rank(run[j], run[i]) is After
}

/// `path` is the same path as the one at `k`, and as no other of the run.
pub open spec fn found_once_at(run: Seq<Seq<char>>, path: Seq<char>, k: int) -> bool {
    &&& 0 <= k < run.len()
    &&& same_path(path, run[k])
    &&& forall|j: int| 0 <= j < run.len() && j != k ==> !same_path(path, #[trigger] run[j])
}

/// `path` is the same path as exactly one of the run.
pub open spec fn found_once(run: Seq<Seq<char>>, path: Seq<char>) -> bool {
    exists|k: int| found_once_at(run, path, k)
}

/// `path` stands in the run at `k`: it is that text, or it is the same path
/// and ranks like it against every other.
pub open spec fn stands_at(run: Seq<Seq<char>>, path: Seq<char>, k: int) -> bool {
    &&& 0 <= k < run.len()
    &&& path == run[k] || (path_rank(path, run[k]) is Same && forall|c: Seq<char>| #[trigger]
        path_rank(path, c) == path_rank(run[k], c))
}

/// `path` stands somewhere in the run.
pub open spec fn stands_in(run: Seq<Seq<char>>, path: Seq<char>) -> bool {
    exists|k: int| stands_at(run, path, k)
}

/// A path that stands in an ascending run is the same path as exactly one of
/// the run's.
pub proof fn lemma_stands_once(run: Seq<Seq<char>>, path: Seq<char>)
    requires
        paths_ascending(run),
        stands_in(run, path),
    ensures
        found_once(run, path),
{
    let k = choose|k: int| stands_at(run, path, k);
    assert forall|j: int| 0 <= j < run.len() && j != k implies !same_path(
        path,
        #[trigger] run[j],
    ) by {
        if j < k {
            assert(path_rank(run[j], run[k]) is Before && path_rank(run[k], run[j]) is After);
        } else {
            assert(path_rank(run[k], run[j]) is Before && path_rank(run[j], run[k]) is After);
        }
    }
    assert(found_once_at(run, path, k));
}

/// The values of a run of borrowed texts.
pub open spec fn texts_of(texts: Seq<&str>) -> Seq<Seq<char>> {
    texts.map_values(|t: &str| t@)
}

/// Puts `path` at its place in an ascending run, unless the run holds the same
/// path already. The run stays ascending; what it held it still holds, in the
/// same order; and `path` stands in it.
pub(crate) fn insert_path<'a>(run: &mut Vec<&'a str>, path: &'a str) -> (placed: (usize, bool))
    requires
        paths_ascending(texts_of(old(run)@)),
    ensures
        paths_ascending(texts_of(final(run)@)),
        stands_at(texts_of(final(run)@), path@, placed.0 as int),
        placed.0 <= old(run).len(),
        placed.1 ==> texts_of(final(run)@) == texts_of(old(run)@).insert(placed.0 as int, path@),
        !placed.1 ==> final(run)@ == old(run)@,
{
    let ghost before = texts_of(run@);
    let mut at: usize = 0;
    while at < run.len()
        invariant
            at <= run.len(),
            *run == *old(run),
            before == texts_of(run@),
            paths_ascending(before),
            forall|k: int|
                0 <= k < at ==> path_rank(path@, #[trigger] before[k]) is After && path_rank(
                    before[k],
                    path@,
                ) is Before,
        ensures
            at <= run.len(),
            *run == *old(run),
            before == texts_of(run@),
            paths_ascending(before),
            forall|k: int|
                0 <= k < at ==> path_rank(path@, #[trigger] before[k]) is After && path_rank(
                    before[k],
                    path@,
                ) is Before,
            forall|k: int|
                at <= k < run.len() ==> path_rank(path@, #[trigger] before[k]) is Before
                    && path_rank(before[k], path@) is After,
        decreases run.len() - at,
    {
        match compare_paths(path, run[at]) {
            Rank::After => {
                at += 1;
            },
            Rank::Same => {
                assert(stands_at(before, path@, at as int));
                return (at, false);
            },
            Rank::Before => {
                assert forall|k: int| at <= k < run.len() implies path_rank(
                    path@,
                    #[trigger] before[k],
                ) is Before && path_rank(before[k], path@) is After by {
                    if k > at {
                        assert(path_rank(before[at as int], before[k]) is Before && path_rank(
                            before[k],
                            before[at as int],
                        ) is After);
                    }
                }
                break ;
            },
        }
    }
    run.insert(at, path);
    proof {
        let after = texts_of(run@);
        assert(after =~= before.insert(at as int, path@));
        assert forall|i: int, j: int| 0 <= i < j < after.len() implies path_rank(
            #[trigger] after[i],
            #[trigger] after[j],
        ) is Before && path_rank(after[j], after[i]) is After by {
            if j < at {
                assert(after[i] == before[i] && after[j] == before[j]);
            } else if j == at {
                assert(after[i] == before[i]);
            } else if i == at {
                assert(after[j] == before[j - 1]);
            } else if i < at {
                assert(after[i] == before[i] && after[j] == before[j - 1]);
            } else {
                assert(after[i] == before[i - 1] && after[j] == before[j - 1]);
            }
        }
        assert(after[at as int] == path@);
    }
    (at, true)
}

/// Whether the two texts are the same text or stand for the same path.
pub fn paths_equal(a: &str, b: &str) -> (same: bool)
    ensures
        same == same_path(a@, b@),
{
    if crate::text::same_text(a, b) {
        return true;
    }
    match compare_paths(a, b) {
        Rank::Same => true,
        _ => false,
    }
}

} // verus!
