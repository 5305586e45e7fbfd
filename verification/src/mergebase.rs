//! The merge-base oracle.
//!
//! Answers lowest-common-ancestor queries over first-parent ancestry and
//! memoizes them by unordered pair, as the commit graph is monotonic and
//! answers never go stale. Also serves the first-parent path from a commit
//! down to its merge base with another.
//!
//! Ancestry here follows first parents only, the same walk the graph
//! builder and the navigation commands use; for a merge commit the second
//! parent's line does not count as an ancestor.

use vstd::prelude::*;
use crate::repo::{CommitData, Repo, has_commit, idx_of, parent_before};

verus! {

/// The ids of the first-parent ancestor chain of the commit at position
/// `i`: the commit itself, then its first parent's chain. The guards against
/// malformed tables never fire on a well-formed repository.
pub open spec fn chain_oids(commits: Seq<CommitData>, i: int) -> Seq<u64>
    decreases i,
{
    if i < 0 || i >= commits.len() {
        Seq::empty()
    } else if commits[i].parents@.len() == 0 {
        seq![commits[i].oid.num]
    } else {
        let j = idx_of(commits, commits[i].parents@[0].num);
        if 0 <= j < i {
            seq![commits[i].oid.num] + chain_oids(commits, j)
        } else {
            seq![commits[i].oid.num]
        }
    }
}

/// The first id of `ca` that also stands in `cb`. On two first-parent
/// chains this is their merge base: chains list positions in decreasing
/// order, so the first hit is the deepest common ancestor.
pub open spec fn mb_scan(ca: Seq<u64>, cb: Seq<u64>) -> Option<u64>
    decreases ca.len(),
{
    if ca.len() == 0 {
        None
    } else if cb.contains(ca[0]) {
        Some(ca[0])
    } else {
        mb_scan(ca.subrange(1, ca.len() as int), cb)
    }
}

/// The prefix of `ca` through its first id that also stands in `cb`,
/// inclusive; `None` when the two are disjoint.
pub open spec fn path_scan(ca: Seq<u64>, cb: Seq<u64>) -> Option<Seq<u64>>
    decreases ca.len(),
{
    if ca.len() == 0 {
        None
    } else if cb.contains(ca[0]) {
        Some(seq![ca[0]])
    } else {
        match path_scan(ca.subrange(1, ca.len() as int), cb) {
            Some(p) => Some(seq![ca[0]] + p),
            None => None,
        }
    }
}

/// The merge base of two commits given by id, over first-parent ancestry,
/// normalized by the unordered pair.
pub open spec fn merge_base_spec(commits: Seq<CommitData>, a: u64, b: u64) -> Option<u64> {
    let x = if a <= b {
        a
    } else {
        b
    };
    let y = if a <= b {
        b
    } else {
        a
    };
    mb_scan(chain_oids(commits, idx_of(commits, x)), chain_oids(commits, idx_of(commits, y)))
}

/// The first-parent path from `from` down to `merge_base(from, target)`,
/// inclusive; `None` when disjoint.
pub open spec fn path_to_merge_base_spec(commits: Seq<CommitData>, from: u64, target: u64) -> Option<
    Seq<u64>,
> {
    path_scan(
        chain_oids(commits, idx_of(commits, from)),
        chain_oids(commits, idx_of(commits, target)),
    )
}

/// The first-parent chain of the commit with id `oid`, as executable code.
#[verifier::loop_isolation(false)]
pub fn commit_chain(repo: &Repo, oid: u64) -> (r: Vec<u64>)
    requires
        repo.commits_wf(),
        has_commit(repo.commits@, oid),
    ensures
        r@ == chain_oids(repo.commits@, idx_of(repo.commits@, oid)),
{
    let start = match repo.find_commit_index(oid) {
        Some(i) => i,
        None => {
            proof {
                assert(false);
            }
            0
        },
    };
    proof {
        assert(idx_of(repo.commits@, oid) == start as int);
    }
    let ghost full = chain_oids(repo.commits@, start as int);
    let mut r: Vec<u64> = Vec::new();
    let mut cur: usize = start;
    proof {
        assert(full =~= r@ + chain_oids(repo.commits@, cur as int));
    }
    loop
        invariant
            cur < repo.commits@.len(),
            full == r@ + chain_oids(repo.commits@, cur as int),
        decreases cur,
    {
        let c = &repo.commits[cur];
        r.push(c.oid.num);
        if c.parents.len() == 0 {
            proof {
                assert(full =~= r@);
            }
            return r;
        }
        let p = c.parents[0];
        proof {
            assert(parent_before(repo.commits@, cur as int, p));
        }
        let j = match repo.find_commit_index(p.num) {
            Some(j) => j,
            None => {
                proof {
                    let jj = choose|jj: int|
                        0 <= jj < cur && (#[trigger] repo.commits@[jj]).oid.num == p.num;
                    assert(has_commit(repo.commits@, p.num));
                    assert(false);
                }
                0
            },
        };
        proof {
            let jj = choose|jj: int|
                0 <= jj < cur && (#[trigger] repo.commits@[jj]).oid.num == p.num;
            assert(repo.commits@[jj].oid.num == repo.commits@[j as int].oid.num);
            assert(jj == j as int);
            assert(idx_of(repo.commits@, p.num) == j as int);
            assert(chain_oids(repo.commits@, cur as int) == seq![repo.commits@[cur as int].oid.num]
                + chain_oids(repo.commits@, j as int));
            assert(full =~= r@ + chain_oids(repo.commits@, j as int));
        }
        cur = j;
    }
}

/// Whether a chain holds an id, as executable code.
fn chain_contains(chain: &Vec<u64>, v: u64) -> (b: bool)
    ensures
        b == chain@.contains(v),
{
    let n = chain.len();
    let mut i: usize = 0;
    while i < n
        invariant
            i <= n,
            n == chain@.len(),
            forall|k: int| 0 <= k < i ==> chain@[k] != v,
        decreases n - i,
    {
        if chain[i] == v {
            return true;
        }
        i += 1;
    }
    false
}

/// With no hit among the first `i` ids, the scans are decided by what
/// follows: a hit at `i` decides them, and no hit at all yields `None`.
proof fn lemma_scan_after_misses(ca: Seq<u64>, cb: Seq<u64>, i: int)
    requires
        0 <= i <= ca.len(),
        forall|k: int| 0 <= k < i ==> !cb.contains(#[trigger] ca[k]),
    ensures
        i < ca.len() && cb.contains(ca[i]) ==> mb_scan(ca, cb) == Some(ca[i]) && path_scan(ca, cb)
            == Some(ca.subrange(0, i + 1)),
        i == ca.len() ==> mb_scan(ca, cb) is None && path_scan(ca, cb) is None,
    decreases i,
{
    if ca.len() == 0 {
    } else if i == 0 {
        if 0 < ca.len() && cb.contains(ca[0]) {
            assert(ca.subrange(0, 1) =~= seq![ca[0]]);
        }
    } else {
        let tail = ca.subrange(1, ca.len() as int);
        assert(forall|k: int| 0 <= k < i - 1 ==> tail[k] == ca[k + 1]);
        lemma_scan_after_misses(tail, cb, i - 1);
        assert(!cb.contains(ca[0]));
        if i < ca.len() && cb.contains(ca[i]) {
            assert(tail[i - 1] == ca[i]);
            assert(mb_scan(tail, cb) == Some(tail[i - 1]));
            assert(path_scan(tail, cb) == Some(tail.subrange(0, i)));
            assert(seq![ca[0]] + tail.subrange(0, i) =~= ca.subrange(0, i + 1));
        }
    }
}

/// Scan `ca` for the first id that also stands in `cb`, as executable code.
#[verifier::loop_isolation(false)]
fn scan_first_common(ca: &Vec<u64>, cb: &Vec<u64>) -> (r: Option<u64>)
    ensures
        r == mb_scan(ca@, cb@),
{
    let n = ca.len();
    let mut i: usize = 0;
    while i < n
        invariant
            i <= n,
            forall|k: int| 0 <= k < i ==> !cb@.contains(#[trigger] ca@[k]),
        decreases n - i,
    {
        if chain_contains(cb, ca[i]) {
            proof {
                lemma_scan_after_misses(ca@, cb@, i as int);
            }
            return Some(ca[i]);
        }
        i += 1;
    }
    proof {
        lemma_scan_after_misses(ca@, cb@, n as int);
    }
    None
}

/// One memoized answer: the merge base (zero for "disjoint") of the
/// normalized pair `(lhs, rhs)`.
pub struct MergeBaseCacheEntry {
    pub lhs: u64,
    pub rhs: u64,
    pub result: u64,
}

/// The merge-base oracle with its memo table.
pub struct MergeBaseDb {
    cache: Vec<MergeBaseCacheEntry>,
}

impl MergeBaseDb {
    /// Every memoized answer agrees with the oracle's specification over the
    /// given repository.
    pub closed spec fn wf(self, repo: Repo) -> bool {
        forall|k: int|
            0 <= k < self.cache@.len() ==> {
                let e = #[trigger] self.cache@[k];
                merge_base_spec(repo.commits@, e.lhs, e.rhs) == (if e.result == 0 {
                    None
                } else {
                    Some(e.result)
                })
            }
    }

    /// An oracle with an empty memo table, valid for any repository.
    pub fn new() -> (r: Self)
        ensures
            forall|repo: Repo| r.wf(repo),
    {
        MergeBaseDb { cache: Vec::new() }
    }

    /// The merge base of two commits over first-parent ancestry, or `None`
    /// when their histories are disjoint. Memoized by unordered pair.
    #[verifier::loop_isolation(false)]
    pub fn get_merge_base_oid(&mut self, repo: &Repo, a: u64, b: u64) -> (r: Option<u64>)
        requires
            old(self).wf(*repo),
            repo.commits_wf(),
            has_commit(repo.commits@, a),
            has_commit(repo.commits@, b),
        ensures
            final(self).wf(*repo),
            r == merge_base_spec(repo.commits@, a, b),
            r matches Some(v) ==> v != 0,
    {
        let x = if a <= b {
            a
        } else {
            b
        };
        let y = if a <= b {
            b
        } else {
            a
        };
        let n = self.cache.len();
        let mut k: usize = 0;
        while k < n
            invariant
                k <= n,
                n == self.cache@.len(),
                self == old(self),
            decreases n - k,
        {
            let e = &self.cache[k];
            if e.lhs == x && e.rhs == y {
                if e.result == 0 {
                    return None;
                } else {
                    return Some(e.result);
                }
            }
            k += 1;
        }
        let ca = commit_chain(repo, x);
        let cb = commit_chain(repo, y);
        let r = scan_first_common(&ca, &cb);
        proof {
            lemma_chain_oids_nonzero(repo.commits@, idx_of(repo.commits@, x));
            lemma_mb_scan_member(ca@, cb@);
        }
        let stored: u64 = match r {
            Some(v) => v,
            None => 0,
        };
        self.cache.push(MergeBaseCacheEntry { lhs: x, rhs: y, result: stored });
        r
    }

    /// The first-parent path from `from` down to its merge base with
    /// `target`, inclusive, or `None` when disjoint. The first element is
    /// `from`; the last is the merge base.
    #[verifier::loop_isolation(false)]
    pub fn find_path_to_merge_base(&mut self, repo: &Repo, from: u64, target: u64) -> (r: Option<
        Vec<u64>,
    >)
        requires
            old(self).wf(*repo),
            repo.commits_wf(),
            has_commit(repo.commits@, from),
            has_commit(repo.commits@, target),
        ensures
            final(self).wf(*repo),
            match r {
                Some(p) => path_to_merge_base_spec(repo.commits@, from, target) == Some(p@),
                None => path_to_merge_base_spec(repo.commits@, from, target) is None,
            },
    {
        let ca = commit_chain(repo, from);
        let cb = commit_chain(repo, target);
        let n = ca.len();
        let mut i: usize = 0;
        while i < n
            invariant
                i <= n,
                forall|k: int| 0 <= k < i ==> !cb@.contains(#[trigger] ca@[k]),
            decreases n - i,
        {
            if chain_contains(&cb, ca[i]) {
                proof {
                    lemma_scan_after_misses(ca@, cb@, i as int);
                }
                let mut out: Vec<u64> = Vec::new();
                let mut j: usize = 0;
                while j <= i
                    invariant
                        j <= i + 1,
                        i < n,
                        out@ == ca@.subrange(0, j as int),
                    decreases i + 1 - j,
                {
                    out.push(ca[j]);
                    proof {
                        assert(out@ =~= ca@.subrange(0, j + 1));
                    }
                    j += 1;
                }
                return Some(out);
            }
            i += 1;
        }
        proof {
            lemma_scan_after_misses(ca@, cb@, n as int);
        }
        None
    }
}

/// The memo table's validity depends only on the commit table.
pub proof fn lemma_mergebase_wf_same_commits(db: MergeBaseDb, r1: Repo, r2: Repo)
    requires
        db.wf(r1),
        r1.commits@ == r2.commits@,
    ensures
        db.wf(r2),
{
}

/// Every id on a chain of a well-formed table is non-zero.
pub proof fn lemma_chain_oids_nonzero(commits: Seq<CommitData>, i: int)
    requires
        forall|k: int| 0 <= k < commits.len() ==> 0 < (#[trigger] commits[k]).oid.num,
    ensures
        forall|k: int| 0 <= k < chain_oids(commits, i).len() ==> chain_oids(commits, i)[k] != 0,
    decreases i,
{
    if 0 <= i < commits.len() && commits[i].parents@.len() > 0 {
        let j = idx_of(commits, commits[i].parents@[0].num);
        if 0 <= j < i {
            lemma_chain_oids_nonzero(commits, j);
            assert forall|k: int| 0 <= k < chain_oids(commits, i).len() implies chain_oids(
                commits,
                i,
            )[k] != 0 by {
                if k > 0 {
                    assert(chain_oids(commits, i)[k] == chain_oids(commits, j)[k - 1]);
                }
            }
        }
    }
}

/// Every id on a chain names a commit of the table.
pub proof fn lemma_chain_oids_members(commits: Seq<CommitData>, i: int)
    ensures
        forall|k: int|
            0 <= k < chain_oids(commits, i).len() ==> has_commit(
                commits,
                #[trigger] chain_oids(commits, i)[k],
            ),
    decreases i,
{
    if 0 <= i < commits.len() {
        let c = chain_oids(commits, i);
        if commits[i].parents@.len() == 0 {
            assert forall|k: int| 0 <= k < c.len() implies has_commit(commits, #[trigger] c[k]) by {
                assert(c[k] == commits[i].oid.num);
                assert(commits[i].oid.num == commits[i].oid.num);
            }
        } else {
            let j = idx_of(commits, commits[i].parents@[0].num);
            if 0 <= j < i {
                lemma_chain_oids_members(commits, j);
                assert forall|k: int| 0 <= k < c.len() implies has_commit(
                    commits,
                    #[trigger] c[k],
                ) by {
                    if k == 0 {
                        assert(c[0] == commits[i].oid.num);
                    } else {
                        assert(c[k] == chain_oids(commits, j)[k - 1]);
                    }
                }
            } else {
                assert forall|k: int| 0 <= k < c.len() implies has_commit(
                    commits,
                    #[trigger] c[k],
                ) by {
                    assert(c[k] == commits[i].oid.num);
                }
            }
        }
    }
}

/// A hit of the chain scan is an element of the first chain.
pub proof fn lemma_mb_scan_member(ca: Seq<u64>, cb: Seq<u64>)
    ensures
        mb_scan(ca, cb) matches Some(v) ==> ca.contains(v) && cb.contains(v),
    decreases ca.len(),
{
    if ca.len() > 0 && !cb.contains(ca[0]) {
        lemma_mb_scan_member(ca.subrange(1, ca.len() as int), cb);
        if mb_scan(ca, cb) is Some {
            let v = mb_scan(ca, cb)->0;
            assert(ca.subrange(1, ca.len() as int).contains(v));
            let k = choose|k: int|
                0 <= k < ca.subrange(1, ca.len() as int).len() && ca.subrange(
                    1,
                    ca.len() as int,
                )[k] == v;
            assert(ca[k + 1] == v);
        }
    }
}

} // verus!
