//! The modelled repository.
//!
//! The underlying version control system is consumed through a capability
//! set; the library holds what that set serves as plain data: the commit
//! table (each commit with its parents, committer time, message, and patch
//! id) and the references (branches, HEAD, and the main branch). The shell
//! that reads a real repository populates this model and writes reference
//! moves back.

use vstd::prelude::*;
use crate::oid::NonZeroOid;

verus! {

/// One commit of the repository.
#[derive(Clone, Debug)]
#[verifier::ext_equal]
pub struct CommitData {
    /// The commit's id.
    pub oid: NonZeroOid,
    /// Parent commits, first parent first.
    pub parents: Vec<NonZeroOid>,
    /// Committer timestamp, seconds since epoch.
    pub committer_time: u64,
    /// The commit message.
    pub message: String,
    /// A stable hash of the commit's diff, normalized against identity and
    /// time, used to detect equivalent commits across rebases.
    pub patch_id: u64,
}

/// A named branch pointing at a commit.
#[derive(Clone, Debug)]
pub struct RefEntry {
    pub name: String,
    pub oid: NonZeroOid,
}

/// Whether the table holds a commit with the given id.
pub open spec fn has_commit(commits: Seq<CommitData>, oid: u64) -> bool {
    exists|i: int| 0 <= i < commits.len() && commits[i].oid.num == oid
}

/// The position of the commit with the given id (meaningful when present,
/// since ids are unique).
pub open spec fn idx_of(commits: Seq<CommitData>, oid: u64) -> int {
    choose|i: int| 0 <= i < commits.len() && commits[i].oid.num == oid
}

/// The value of a branch by name, scanning from the end.
pub open spec fn branch_lookup(branches: Seq<RefEntry>, name: Seq<char>) -> Option<u64>
    decreases branches.len(),
{
    if branches.len() == 0 {
        None
    } else if branches.last().name@ == name {
        Some(branches.last().oid.num)
    } else {
        branch_lookup(branches.drop_last(), name)
    }
}

/// Some commit before position `i` carries the id `p`.
pub open spec fn parent_before(commits: Seq<CommitData>, i: int, p: NonZeroOid) -> bool {
    exists|j: int| 0 <= j < i && (#[trigger] commits[j]).oid.num == p.num
}

/// The modelled repository: commit table plus references.
pub struct Repo {
    /// All commits, in an order compatible with ancestry: every parent
    /// stands at a smaller position than its child.
    pub commits: Vec<CommitData>,
    /// The branches, with unique names.
    pub branches: Vec<RefEntry>,
    /// The commit HEAD points at, or zero when HEAD is unborn.
    pub head_oid: u64,
    /// The name of the distinguished main branch.
    pub main_branch_name: String,
}

impl Repo {
    /// Well-formedness of the commit table alone: non-zero unique ids with
    /// room to allocate more, and parents standing earlier than children.
    pub open spec fn commits_wf(self) -> bool {
        &&& forall|i: int|
            0 <= i < self.commits@.len() ==> 0 < (#[trigger] self.commits@[i]).oid.num
                < 0xffff_ffff_ffff_ffff
        &&& forall|i: int, j: int|
            0 <= i < j < self.commits@.len() ==> (#[trigger] self.commits@[i]).oid.num != (
            #[trigger] self.commits@[j]).oid.num
        &&& forall|i: int, k: int|
            0 <= i < self.commits@.len() && 0 <= k < self.commits@[i].parents@.len()
                ==> parent_before(self.commits@, i, #[trigger] self.commits@[i].parents@[k])
    }

    /// Full well-formedness: the references also point at commits of the
    /// table, branch names are unique, and the main branch exists.
    pub open spec fn wf(self) -> bool {
        &&& self.commits_wf()
        &&& forall|b: int|
            0 <= b < self.branches@.len() ==> has_commit(
                self.commits@,
                (#[trigger] self.branches@[b]).oid.num,
            )
        &&& forall|b1: int, b2: int|
            0 <= b1 < b2 < self.branches@.len() ==> (#[trigger] self.branches@[b1]).name@ != (
            #[trigger] self.branches@[b2]).name@
        &&& (self.head_oid == 0 || has_commit(self.commits@, self.head_oid))
        &&& branch_lookup(self.branches@, self.main_branch_name@) is Some
    }

    /// The main branch's tip.
    pub open spec fn main_branch_oid_spec(self) -> u64 {
        branch_lookup(self.branches@, self.main_branch_name@)->0
    }

    /// Find the position of a commit by id.
    pub fn find_commit_index(&self, oid: u64) -> (r: Option<usize>)
        ensures
            match r {
                Some(i) => i < self.commits@.len() && self.commits@[i as int].oid.num == oid,
                None => !has_commit(self.commits@, oid),
            },
    {
        let n = self.commits.len();
        let mut i: usize = 0;
        while i < n
            invariant
                i <= n,
                n == self.commits@.len(),
                forall|k: int| 0 <= k < i ==> (#[trigger] self.commits@[k]).oid.num != oid,
            decreases n - i,
        {
            if self.commits[i].oid.num == oid {
                return Some(i);
            }
            i += 1;
        }
        None
    }

    /// Find a commit by id.
    pub fn find_commit(&self, oid: u64) -> (r: Option<&CommitData>)
        ensures
            match r {
                Some(c) => has_commit(self.commits@, oid) && c.oid.num == oid && (self.commits_wf()
                    ==> *c == self.commits@[idx_of(self.commits@, oid)]),
                None => !has_commit(self.commits@, oid),
            },
    {
        match self.find_commit_index(oid) {
            Some(i) => {
                let c = &self.commits[i];
                proof {
                    assert(has_commit(self.commits@, oid));
                    let j = idx_of(self.commits@, oid);
                    assert(0 <= j < self.commits@.len() && self.commits@[j].oid.num == oid);
                    if self.commits_wf() {
                        assert(j == i);
                    }
                }
                Some(c)
            },
            None => None,
        }
    }

    /// HEAD's commit, if HEAD is born.
    pub fn get_head_info(&self) -> (r: Option<NonZeroOid>)
        ensures
            match r {
                Some(o) => self.head_oid != 0 && o.num == self.head_oid,
                None => self.head_oid == 0,
            },
    {
        if self.head_oid == 0 {
            None
        } else {
            Some(NonZeroOid { num: self.head_oid })
        }
    }

    /// Look a branch up by name.
    pub fn get_branch_oid(&self, name: &String) -> (r: Option<u64>)
        ensures
            r == branch_lookup(self.branches@, name@),
    {
        let n = self.branches.len();
        let mut m: usize = n;
        proof {
            assert(self.branches@.take(n as int) =~= self.branches@);
        }
        while m > 0
            invariant
                m <= n,
                n == self.branches@.len(),
                branch_lookup(self.branches@.take(m as int), name@) == branch_lookup(
                    self.branches@,
                    name@,
                ),
            decreases m,
        {
            let b = &self.branches[m - 1];
            proof {
                assert(self.branches@.take(m as int).last() == self.branches@[m - 1]);
                assert(self.branches@.take(m as int).drop_last() =~= self.branches@.take(m - 1));
            }
            if b.name == *name {
                return Some(b.oid.num);
            }
            m -= 1;
        }
        None
    }

    /// The tip of the main branch.
    pub fn get_main_branch_oid(&self) -> (r: NonZeroOid)
        requires
            self.wf(),
        ensures
            r.num == self.main_branch_oid_spec(),
            r.num != 0,
            has_commit(self.commits@, r.num),
    {
        let name = self.main_branch_name.clone();
        let r = self.get_branch_oid(&name);
        proof {
            lemma_branch_lookup_hits(self.branches@, self.main_branch_name@);
        }
        match r {
            Some(oid) => NonZeroOid { num: oid },
            None => {
                proof {
                    assert(false);
                }
                NonZeroOid { num: 1 }
            },
        }
    }

    /// The tips of all branches, in branch order.
    /// The branch tips as plain ids, in the branches' listed order.
    pub open spec fn branch_nums(self) -> Seq<u64> {
        self.branches@.map_values(|b: RefEntry| b.oid.num)
    }

    pub fn branch_oids(&self) -> (r: Vec<u64>)
        ensures
            r@ == self.branches@.map_values(|b: RefEntry| b.oid.num),
    {
        let n = self.branches.len();
        let mut r: Vec<u64> = Vec::new();
        let mut i: usize = 0;
        while i < n
            invariant
                i <= n,
                n == self.branches@.len(),
                r@ == self.branches@.take(i as int).map_values(|b: RefEntry| b.oid.num),
            decreases n - i,
        {
            r.push(self.branches[i].oid.num);
            proof {
                assert(r@ =~= self.branches@.take(i + 1).map_values(|b: RefEntry| b.oid.num));
            }
            i += 1;
        }
        proof {
            assert(r@ =~= self.branches@.map_values(|b: RefEntry| b.oid.num));
        }
        r
    }
}

/// The largest commit id in the table (zero when empty).
pub open spec fn max_oid(commits: Seq<CommitData>) -> int
    decreases commits.len(),
{
    if commits.len() == 0 {
        0
    } else if commits.last().oid.num >= max_oid(commits.drop_last()) {
        commits.last().oid.num as int
    } else {
        max_oid(commits.drop_last())
    }
}

/// Every commit id is bounded by the table's maximum.
pub proof fn lemma_max_oid_bounds(commits: Seq<CommitData>)
    ensures
        forall|i: int| 0 <= i < commits.len() ==> (#[trigger] commits[i]).oid.num <= max_oid(commits),
        max_oid(commits) >= 0,
    decreases commits.len(),
{
    if commits.len() > 0 {
        lemma_max_oid_bounds(commits.drop_last());
        assert forall|i: int| 0 <= i < commits.len() implies (#[trigger] commits[i]).oid.num
            <= max_oid(commits) by {
            if i < commits.len() - 1 {
                assert(commits.drop_last()[i] == commits[i]);
                assert(commits.drop_last()[i].oid.num <= max_oid(commits.drop_last()));
            }
        }
    }
}

/// Appending a commit raises the maximum to at most its id.
pub proof fn lemma_max_oid_push(commits: Seq<CommitData>, c: CommitData)
    ensures
        max_oid(commits.push(c)) == if c.oid.num >= max_oid(commits) {
            c.oid.num as int
        } else {
            max_oid(commits)
        },
{
    assert(commits.push(c).drop_last() =~= commits);
    assert(commits.push(c).last() == c);
}

/// Updating the entry that carries a name changes that name's value and no
/// other, provided no other entry carries the same name.
pub proof fn lemma_branch_lookup_update(
    branches: Seq<RefEntry>,
    i: int,
    e: RefEntry,
    name2: Seq<char>,
)
    requires
        0 <= i < branches.len(),
        branches[i].name@ == e.name@,
        forall|j: int|
            0 <= j < branches.len() && j != i ==> (#[trigger] branches[j]).name@ != e.name@,
    ensures
        branch_lookup(branches.update(i, e), name2) == if name2 == e.name@ {
            Some(e.oid.num)
        } else {
            branch_lookup(branches, name2)
        },
    decreases branches.len(),
{
    let b2 = branches.update(i, e);
    if i == branches.len() - 1 {
        assert(b2.last() == e);
        assert(b2.drop_last() =~= branches.drop_last());
        if name2 != e.name@ {
            assert(branch_lookup(branches, name2) == branch_lookup(branches.drop_last(), name2));
        }
    } else {
        assert(b2.last() == branches.last());
        assert(b2.drop_last() =~= branches.drop_last().update(i, e));
        assert(forall|j: int|
            0 <= j < branches.len() - 1 ==> #[trigger] branches.drop_last()[j] == branches[j]);
        lemma_branch_lookup_update(branches.drop_last(), i, e, name2);
        if branches.last().name@ == name2 {
            if name2 == e.name@ {
                assert(branches[branches.len() - 1].name@ == e.name@);
                assert(false);
            }
        }
    }
}

/// Appending an entry changes its name's value and no other.
pub proof fn lemma_branch_lookup_push(branches: Seq<RefEntry>, e: RefEntry, name2: Seq<char>)
    ensures
        branch_lookup(branches.push(e), name2) == if name2 == e.name@ {
            Some(e.oid.num)
        } else {
            branch_lookup(branches, name2)
        },
{
    assert(branches.push(e).drop_last() =~= branches);
    assert(branches.push(e).last() == e);
}

/// A name carried by no entry looks up to nothing.
pub proof fn lemma_branch_lookup_absent(branches: Seq<RefEntry>, name: Seq<char>)
    requires
        forall|j: int| 0 <= j < branches.len() ==> (#[trigger] branches[j]).name@ != name,
    ensures
        branch_lookup(branches, name) is None,
    decreases branches.len(),
{
    if branches.len() > 0 {
        assert(forall|j: int|
            0 <= j < branches.len() - 1 ==> #[trigger] branches.drop_last()[j] == branches[j]);
        lemma_branch_lookup_absent(branches.drop_last(), name);
    }
}

/// Removing the entry that carries a name deletes that name's value and no
/// other, provided no other entry carries the same name.
pub proof fn lemma_branch_lookup_remove(branches: Seq<RefEntry>, i: int, name2: Seq<char>)
    requires
        0 <= i < branches.len(),
        forall|j: int|
            0 <= j < branches.len() && j != i ==> (#[trigger] branches[j]).name@
                != branches[i].name@,
    ensures
        branch_lookup(branches.remove(i), name2) == if name2 == branches[i].name@ {
            None::<u64>
        } else {
            branch_lookup(branches, name2)
        },
    decreases branches.len(),
{
    let b2 = branches.remove(i);
    if i == branches.len() - 1 {
        assert(b2 =~= branches.drop_last());
        if name2 == branches[i].name@ {
            lemma_branch_lookup_absent(branches.drop_last(), name2);
        } else {
            assert(branch_lookup(branches, name2) == branch_lookup(branches.drop_last(), name2));
        }
    } else {
        assert(b2.last() == branches.last());
        assert(b2.drop_last() =~= branches.drop_last().remove(i));
        assert(forall|j: int|
            0 <= j < branches.len() - 1 ==> #[trigger] branches.drop_last()[j] == branches[j]);
        lemma_branch_lookup_remove(branches.drop_last(), i, name2);
    }
}

impl Repo {
    /// Point a branch at a commit, creating it if absent. Changes no other
    /// reference.
    #[verifier::loop_isolation(false)]
    pub fn set_ref(&mut self, name: &String, oid: NonZeroOid)
        requires
            old(self).wf(),
            has_commit(old(self).commits@, oid.num),
        ensures
            final(self).wf(),
            final(self).commits@ == old(self).commits@,
            final(self).head_oid == old(self).head_oid,
            final(self).main_branch_name@ == old(self).main_branch_name@,
            branch_lookup(final(self).branches@, name@) == Some(oid.num),
            forall|n2: Seq<char>|
                n2 != name@ ==> branch_lookup(final(self).branches@, n2) == branch_lookup(
                    old(self).branches@,
                    n2,
                ),
    {
        let n = self.branches.len();
        let mut i: usize = 0;
        while i < n
            invariant
                i <= n,
                self == old(self),
                n == self.branches@.len(),
                forall|k: int| 0 <= k < i ==> (#[trigger] self.branches@[k]).name@ != name@,
            decreases n - i,
        {
            if self.branches[i].name == *name {
                let e = RefEntry { name: name.clone(), oid };
                let ghost ob = self.branches@;
                self.branches.set(i, e);
                proof {
                    assert(e.name@ == name@);
                    assert(ob[i as int].name@ == name@);
                    assert forall|j: int|
                        0 <= j < ob.len() && j != i implies (#[trigger] ob[j]).name@ != name@ by {
                        assert(ob == old(self).branches@);
                        if j < i {
                            assert(old(self).branches@[j].name@ != old(self).branches@[i as int].name@);
                        } else {
                            assert(old(self).branches@[i as int].name@ != old(self).branches@[j].name@);
                        }
                    }
                    assert(self.branches@ == ob.update(i as int, e));
                    lemma_branch_lookup_update(ob, i as int, e, name@);
                    assert forall|n2: Seq<char>| n2 != name@ implies branch_lookup(
                        self.branches@,
                        n2,
                    ) == branch_lookup(ob, n2) by {
                        lemma_branch_lookup_update(ob, i as int, e, n2);
                    }
                    assert forall|b: int| 0 <= b < self.branches@.len() implies has_commit(
                        self.commits@,
                        (#[trigger] self.branches@[b]).oid.num,
                    ) by {
                        if b != i {
                            assert(self.branches@[b] == ob[b]);
                        }
                    }
                    assert forall|b1: int, b2: int|
                        0 <= b1 < b2 < self.branches@.len() implies (
                    #[trigger] self.branches@[b1]).name@ != (#[trigger] self.branches@[b2]).name@ by {
                        if b1 == i {
                            assert(self.branches@[b2] == ob[b2]);
                        } else if b2 == i {
                            assert(self.branches@[b1] == ob[b1]);
                        } else {
                            assert(self.branches@[b1] == ob[b1]);
                            assert(self.branches@[b2] == ob[b2]);
                        }
                    }
                    if self.main_branch_name@ != name@ {
                        lemma_branch_lookup_update(ob, i as int, e, self.main_branch_name@);
                    }
                }
                return ;
            }
            i += 1;
        }
        let e = RefEntry { name: name.clone(), oid };
        let ghost ob = self.branches@;
        self.branches.push(e);
        proof {
            assert(e.name@ == name@);
            assert(self.branches@ == ob.push(e));
            lemma_branch_lookup_push(ob, e, name@);
            assert forall|n2: Seq<char>| n2 != name@ implies branch_lookup(self.branches@, n2)
                == branch_lookup(ob, n2) by {
                lemma_branch_lookup_push(ob, e, n2);
            }
            assert forall|b: int| 0 <= b < self.branches@.len() implies has_commit(
                self.commits@,
                (#[trigger] self.branches@[b]).oid.num,
            ) by {
                if b < ob.len() {
                    assert(self.branches@[b] == ob[b]);
                }
            }
            assert forall|b1: int, b2: int|
                0 <= b1 < b2 < self.branches@.len() implies (#[trigger] self.branches@[b1]).name@
                != (#[trigger] self.branches@[b2]).name@ by {
                assert(self.branches@[b1] == ob[b1]);
                if b2 < ob.len() {
                    assert(self.branches@[b2] == ob[b2]);
                } else {
                    assert(self.branches@[b2] == e);
                    assert(ob[b1].name@ != name@);
                }
            }
            if self.main_branch_name@ != name@ {
                lemma_branch_lookup_push(ob, e, self.main_branch_name@);
            }
        }
    }

    /// Delete a branch (not the main branch). Changes no other reference.
    #[verifier::loop_isolation(false)]
    pub fn delete_ref(&mut self, name: &String)
        requires
            old(self).wf(),
            name@ != old(self).main_branch_name@,
        ensures
            final(self).wf(),
            final(self).commits@ == old(self).commits@,
            final(self).head_oid == old(self).head_oid,
            final(self).main_branch_name@ == old(self).main_branch_name@,
            branch_lookup(final(self).branches@, name@) is None,
            forall|n2: Seq<char>|
                n2 != name@ ==> branch_lookup(final(self).branches@, n2) == branch_lookup(
                    old(self).branches@,
                    n2,
                ),
    {
        let n = self.branches.len();
        let mut i: usize = 0;
        while i < n
            invariant
                i <= n,
                self == old(self),
                n == self.branches@.len(),
                forall|k: int| 0 <= k < i ==> (#[trigger] self.branches@[k]).name@ != name@,
            decreases n - i,
        {
            if self.branches[i].name == *name {
                let ghost ob = self.branches@;
                self.branches.remove(i);
                proof {
                    assert(ob[i as int].name@ == name@);
                    assert forall|j: int|
                        0 <= j < ob.len() && j != i implies (#[trigger] ob[j]).name@
                            != ob[i as int].name@ by {
                        assert(ob == old(self).branches@);
                        if j < i {
                            assert(old(self).branches@[j].name@ != old(self).branches@[i as int].name@);
                        } else {
                            assert(old(self).branches@[i as int].name@ != old(self).branches@[j].name@);
                        }
                    }
                    assert(self.branches@ == ob.remove(i as int));
                    lemma_branch_lookup_remove(ob, i as int, name@);
                    assert forall|n2: Seq<char>| n2 != name@ implies branch_lookup(
                        self.branches@,
                        n2,
                    ) == branch_lookup(ob, n2) by {
                        lemma_branch_lookup_remove(ob, i as int, n2);
                    }
                    assert forall|b: int| 0 <= b < self.branches@.len() implies has_commit(
                        self.commits@,
                        (#[trigger] self.branches@[b]).oid.num,
                    ) by {
                        if b < i {
                            assert(self.branches@[b] == ob[b]);
                        } else {
                            assert(self.branches@[b] == ob[b + 1]);
                        }
                    }
                    assert forall|b1: int, b2: int|
                        0 <= b1 < b2 < self.branches@.len() implies (
                    #[trigger] self.branches@[b1]).name@ != (#[trigger] self.branches@[b2]).name@ by {
                        let a1 = if b1 < i { b1 } else { b1 + 1 };
                        let a2 = if b2 < i { b2 } else { b2 + 1 };
                        assert(self.branches@[b1] == ob[a1]);
                        assert(self.branches@[b2] == ob[a2]);
                        assert(ob[a1].name@ != ob[a2].name@);
                    }
                    lemma_branch_lookup_remove(ob, i as int, self.main_branch_name@);
                }
                return ;
            }
            i += 1;
        }
        proof {
            lemma_branch_lookup_absent(self.branches@, name@);
        }
    }

    /// Move HEAD, detaching it onto a commit, or to zero (unborn).
    pub fn set_head(&mut self, oid: u64)
        requires
            old(self).wf(),
            oid == 0 || has_commit(old(self).commits@, oid),
        ensures
            final(self).wf(),
            final(self).commits@ == old(self).commits@,
            final(self).branches@ == old(self).branches@,
            final(self).main_branch_name@ == old(self).main_branch_name@,
            final(self).head_oid == oid,
    {
        self.head_oid = oid;
    }

    /// Create a commit with a fresh id onto the given parents.
    pub fn create_commit(
        &mut self,
        parents: Vec<NonZeroOid>,
        committer_time: u64,
        message: String,
        patch_id: u64,
    ) -> (r: NonZeroOid)
        requires
            old(self).wf(),
            max_oid(old(self).commits@) < u64::MAX - 1,
            forall|k: int|
                0 <= k < parents@.len() ==> has_commit(old(self).commits@, parents@[k].num),
        ensures
            final(self).wf(),
            r.num == max_oid(old(self).commits@) + 1,
            !has_commit(old(self).commits@, r.num),
            final(self).commits@ == old(self).commits@.push(
                (CommitData { oid: r, parents: parents, committer_time, message, patch_id }),
            ),
            max_oid(final(self).commits@) == max_oid(old(self).commits@) + 1,
            final(self).branches@ == old(self).branches@,
            final(self).head_oid == old(self).head_oid,
            final(self).main_branch_name@ == old(self).main_branch_name@,
    {
        let n = self.commits.len();
        let mut mx: u64 = 0;
        let mut i: usize = 0;
        proof {
            assert(self.commits@.take(0int) =~= Seq::<CommitData>::empty());
        }
        while i < n
            invariant
                i <= n,
                n == self.commits@.len(),
                mx as int == max_oid(self.commits@.take(i as int)),
            decreases n - i,
        {
            proof {
                assert(self.commits@.take(i + 1).drop_last() =~= self.commits@.take(i as int));
                assert(self.commits@.take(i + 1).last() == self.commits@[i as int]);
                lemma_max_oid_bounds(self.commits@.take(i + 1));
                assert(self.commits@.take(i + 1)[i as int] == self.commits@[i as int]);
            }
            let c = self.commits[i].oid.num;
            if c > mx {
                mx = c;
            }
            i += 1;
        }
        proof {
            assert(self.commits@.take(n as int) =~= self.commits@);
            lemma_max_oid_bounds(self.commits@);
        }
        let r = NonZeroOid { num: mx + 1 };
        let c = CommitData { oid: r, parents, committer_time, message, patch_id };
        proof {
            lemma_max_oid_push(self.commits@, c);
            assert(!has_commit(self.commits@, r.num));
        }
        self.commits.push(c);
        proof {
            assert(forall|j: int|
                0 <= j < old(self).commits@.len() ==> #[trigger] self.commits@[j] == old(
                    self,
                ).commits@[j]);
            assert(forall|b: int|
                0 <= b < self.branches@.len() ==> has_commit(
                    self.commits@,
                    (#[trigger] self.branches@[b]).oid.num,
                )) by {
                assert forall|b: int| 0 <= b < self.branches@.len() implies has_commit(
                    self.commits@,
                    (#[trigger] self.branches@[b]).oid.num,
                ) by {
                    let v = self.branches@[b].oid.num;
                    assert(has_commit(old(self).commits@, v));
                    let w = choose|x: int|
                        0 <= x < old(self).commits@.len() && old(self).commits@[x].oid.num == v;
                    assert(self.commits@[w].oid.num == v);
                }
            }
            if self.head_oid != 0 {
                let w = choose|x: int|
                    0 <= x < old(self).commits@.len() && old(self).commits@[x].oid.num
                        == self.head_oid;
                assert(self.commits@[w].oid.num == self.head_oid);
            }
            assert forall|ii: int, k: int|
                0 <= ii < self.commits@.len() && 0 <= k
                    < self.commits@[ii].parents@.len() implies parent_before(
                self.commits@,
                ii,
                #[trigger] self.commits@[ii].parents@[k],
            ) by {
                if ii < self.commits@.len() - 1 {
                    assert(self.commits@[ii] == old(self).commits@[ii]);
                    assert(parent_before(
                        old(self).commits@,
                        ii,
                        old(self).commits@[ii].parents@[k],
                    ));
                    let j = choose|j: int|
                        0 <= j < ii && (#[trigger] old(self).commits@[j]).oid.num == old(
                            self,
                        ).commits@[ii].parents@[k].num;
                    assert(self.commits@[j].oid.num == self.commits@[ii].parents@[k].num);
                } else {
                    let v = self.commits@[ii].parents@[k].num;
                    assert(has_commit(old(self).commits@, v));
                    let j = choose|j: int|
                        0 <= j < old(self).commits@.len() && old(self).commits@[j].oid.num == v;
                    assert(self.commits@[j].oid.num == v);
                }
            }
        }
        r
    }
}

/// When a branch's value is `Some`, some entry carries that name and value.
pub proof fn lemma_branch_lookup_hits(branches: Seq<RefEntry>, name: Seq<char>)
    ensures
        branch_lookup(branches, name) matches Some(v) ==> exists|b: int|
            0 <= b < branches.len() && branches[b].name@ == name && branches[b].oid.num == v,
    decreases branches.len(),
{
    if branches.len() > 0 {
        lemma_branch_lookup_hits(branches.drop_last(), name);
    }
}

} // verus!
