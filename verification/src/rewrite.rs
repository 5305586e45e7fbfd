//! The rebase planner and executor.
//!
//! The planner turns "move the subtree rooted at `source` onto `dest`" into
//! an ordered list of primitive steps, skipping commits whose patch already
//! stands among the destination's ancestors. The executor applies a plan in
//! memory: each pick creates a commit onto the current position, references
//! whose tips were rewritten are moved, and all resulting events are
//! appended as one transaction.

use vstd::prelude::*;
use crate::eventlog::{log_capacity, log_wf, Event, EventLogDb, EventReplayer};
use crate::mergebase::MergeBaseDb;
use crate::graph::{graph_has, graph_wf, hash_resolves, node_idx_of, CommitGraph, Node};
use crate::mergebase::chain_oids;
use crate::oid::{hex_text, NonZeroOid};
use crate::repo::{has_commit, idx_of, max_oid, Repo};

verus! {

/// One primitive step of a rebase plan.
#[derive(Debug)]
pub enum RebaseStep {
    /// Replay the commit's patch onto the current position.
    Pick { commit_oid: NonZeroOid },
    /// Bookmark the current position.
    Label { name: String },
    /// Move the current position to a bookmark.
    Reset { name: String },
    /// Bookmark an absolute commit.
    CreateLabel { commit_oid: NonZeroOid, name: String },
    /// Emit a rewrite event after the surrounding step.
    RegisterExtraPostRewriteHook,
}

/// An ordered rebase plan.
#[derive(Debug)]
pub struct RebasePlan {
    /// Where the first pick lands.
    pub first_dest_oid: NonZeroOid,
    /// The steps, in application order.
    pub steps: Vec<RebaseStep>,
    /// Commits skipped as duplicates, each with the destination ancestor
    /// that already carries the same patch.
    pub rewritten_oids: Vec<(NonZeroOid, NonZeroOid)>,
}

/// Options for building a plan.
#[derive(Clone, Copy, Debug)]
pub struct BuildRebasePlanOptions {
    pub dump_rebase_constraints: bool,
    pub dump_rebase_plan: bool,
    pub detect_duplicate_commits_via_patch_id: bool,
}

/// A structured planning failure.
#[derive(Debug)]
pub enum BuildRebasePlanError {
    /// A named commit has no node in the graph.
    CommitNotFound { oid: NonZeroOid },
    /// The destination lies inside the subtree being moved.
    SubtreeIncludesDest { dest_oid: NonZeroOid },
    /// The constraints contain a cycle (never produced over a well-formed
    /// graph; kept so callers can render it).
    CycleDetected { oid: NonZeroOid },
    /// A merge base was required but missing (never produced over a
    /// well-formed graph; kept so callers can render it).
    MergeBaseMissing { lhs: NonZeroOid, rhs: NonZeroOid },
}

impl BuildRebasePlanError {
    /// A one-line human description of the failure, exact per variant.
    pub fn describe(&self) -> (s: String)
        ensures
            s@ == match *self {
                BuildRebasePlanError::CommitNotFound { oid } => "Commit not found: "@
                    + hex_text(oid.num),
                BuildRebasePlanError::SubtreeIncludesDest { dest_oid } =>
                    "The destination is inside the subtree being moved: "@ + hex_text(
                    dest_oid.num,
                ),
                BuildRebasePlanError::CycleDetected { oid } => "A cycle was detected at commit: "@
                    + hex_text(oid.num),
                BuildRebasePlanError::MergeBaseMissing { lhs, rhs } =>
                    "No merge base between commits: "@ + hex_text(lhs.num) + " and "@ + hex_text(
                    rhs.num,
                ),
            },
            s@.len() > 0,
    {
        proof {
            reveal_strlit("Commit not found: ");
            reveal_strlit("The destination is inside the subtree being moved: ");
            reveal_strlit("A cycle was detected at commit: ");
            reveal_strlit("No merge base between commits: ");
            reveal_strlit(" and ");
        }
        match self {
            BuildRebasePlanError::CommitNotFound { oid } => {
                let mut s = String::from_str("Commit not found: ");
                let t = oid.to_text();
                s.append(t.as_str());
                s
            },
            BuildRebasePlanError::SubtreeIncludesDest { dest_oid } => {
                let mut s = String::from_str(
                    "The destination is inside the subtree being moved: ",
                );
                let t = dest_oid.to_text();
                s.append(t.as_str());
                s
            },
            BuildRebasePlanError::CycleDetected { oid } => {
                let mut s = String::from_str("A cycle was detected at commit: ");
                let t = oid.to_text();
                s.append(t.as_str());
                s
            },
            BuildRebasePlanError::MergeBaseMissing { lhs, rhs } => {
                let mut s = String::from_str("No merge base between commits: ");
                let t = lhs.to_text();
                s.append(t.as_str());
                s.append(" and ");
                let t2 = rhs.to_text();
                s.append(t2.as_str());
                s
            },
        }
    }
}

/// Whether the node at position `k` descends from `source` through graph
/// parent edges (`source` itself included).
#[verifier::opaque]
pub open spec fn in_subtree(nodes: Seq<Node>, source: u64, k: int) -> bool
    decreases k,
{
    if !(0 <= k < nodes.len()) {
        false
    } else if nodes[k].commit_oid.num == source {
        true
    } else {
        match nodes[k].parent {
            Some(p) => {
                let j = node_idx_of(nodes, p.num);
                if 0 <= j < k {
                    in_subtree(nodes, source, j)
                } else {
                    false
                }
            },
            None => false,
        }
    }
}

/// Whether some ancestor of `dest` (first-parent ancestry, `dest`
/// included) carries the given patch id.
#[verifier::opaque]
pub open spec fn dup_in_dest(commits: Seq<crate::repo::CommitData>, dest: u64, pid: u64) -> bool {
    exists|q: int|
        0 <= q < chain_oids(commits, idx_of(commits, dest)).len() && commits[idx_of(
            commits,
            #[trigger] chain_oids(commits, idx_of(commits, dest))[q],
        )].patch_id == pid
}

/// The number of pick steps in a plan.
pub open spec fn num_picks(steps: Seq<RebaseStep>) -> int
    decreases steps.len(),
{
    if steps.len() == 0 {
        0
    } else {
        (if (steps.last() matches RebaseStep::Pick { .. }) {
            1int
        } else {
            0int
        }) + num_picks(steps.drop_last())
    }
}

/// Whether a step picks the given commit.
pub open spec fn is_pick_of(step: RebaseStep, oid: u64) -> bool {
    match step {
        RebaseStep::Pick { commit_oid } => commit_oid.num == oid,
        _ => false,
    }
}

/// Whether the steps hold a pick of the given commit.
pub open spec fn has_pick(steps: Seq<RebaseStep>, oid: u64) -> bool {
    exists|s: int| 0 <= s < steps.len() && is_pick_of(#[trigger] steps[s], oid)
}

/// Whether the rewritten list records the commit as skipped.
pub open spec fn has_rewrite(rw: Seq<(NonZeroOid, NonZeroOid)>, oid: u64) -> bool {
    exists|s: int| 0 <= s < rw.len() && (#[trigger] rw[s]).0.num == oid
}

/// The patch id of a commit known to the table.
pub open spec fn patch_of(commits: Seq<crate::repo::CommitData>, oid: u64) -> u64 {
    commits[idx_of(commits, oid)].patch_id
}

/// What a recorded skip promises: the old side is a subtree commit, and
/// the new side is an ancestor of the destination (first parents,
/// destination included) carrying the same patch id.
pub open spec fn rw_pair_ok(
    repo: Repo,
    nodes: Seq<Node>,
    source: NonZeroOid,
    dest: NonZeroOid,
    pr: (NonZeroOid, NonZeroOid),
) -> bool {
    &&& graph_has(nodes, pr.0.num)
    &&& in_subtree(nodes, source.num, node_idx_of(nodes, pr.0.num))
    &&& has_commit(repo.commits@, pr.0.num)
    &&& has_commit(repo.commits@, pr.1.num)
    &&& chain_oids(repo.commits@, idx_of(repo.commits@, dest.num)).contains(pr.1.num)
    &&& patch_of(repo.commits@, pr.1.num) == patch_of(repo.commits@, pr.0.num)
}

/// What a successfully built plan promises: the first destination is
/// `dest`; every pick is a subtree commit and (under duplicate detection)
/// no duplicate, picks standing in the graph's topological order; every
/// subtree commit is either picked or (being a duplicate, under
/// detection) recorded as rewritten, onto a patch-matching destination
/// ancestor.
pub open spec fn plan_ok(
    repo: Repo,
    nodes: Seq<Node>,
    source: NonZeroOid,
    dest: NonZeroOid,
    detect: bool,
    plan: RebasePlan,
) -> bool {
    &&& plan.first_dest_oid == dest
    &&& forall|s: int|
        0 <= s < plan.steps@.len() ==> ((#[trigger] plan.steps@[s]) matches RebaseStep::Pick {
            commit_oid,
        } ==> {
            &&& graph_has(nodes, commit_oid.num)
            &&& in_subtree(nodes, source.num, node_idx_of(nodes, commit_oid.num))
            &&& has_commit(repo.commits@, commit_oid.num)
            &&& (detect ==> !dup_in_dest(repo.commits@, dest.num, patch_of(repo.commits@, commit_oid.num)))
        })
    &&& plan.steps@.len() <= 1 + 3 * nodes.len()
    &&& plan.rewritten_oids@.len() <= nodes.len()
    &&& forall|s: int|
        0 <= s < plan.rewritten_oids@.len() ==> rw_pair_ok(
            repo,
            nodes,
            source,
            dest,
            #[trigger] plan.rewritten_oids@[s],
        )
    &&& forall|s1: int, s2: int|
        0 <= s1 < s2 < plan.steps@.len() ==> ((#[trigger] plan.steps@[s1]) matches RebaseStep::Pick {
            commit_oid: c1,
        } ==> ((#[trigger] plan.steps@[s2]) matches RebaseStep::Pick { commit_oid: c2 }
            ==> node_idx_of(nodes, c1.num) < node_idx_of(nodes, c2.num)))
    &&& forall|k: int|
        0 <= k < nodes.len() && in_subtree(nodes, source.num, k) ==> {
            if detect && dup_in_dest(
                repo.commits@,
                dest.num,
                patch_of(repo.commits@, (#[trigger] nodes[k]).commit_oid.num),
            ) {
                has_rewrite(plan.rewritten_oids@, nodes[k].commit_oid.num) && !has_pick(
                    plan.steps@,
                    nodes[k].commit_oid.num,
                )
            } else {
                has_pick(plan.steps@, nodes[k].commit_oid.num)
            }
        }
}

/// Patch-id idempotence: when a plan is built with duplicate detection and
/// every commit of the subtree already has its patch among the
/// destination's ancestors — as after a first application of the same move
/// — the plan holds no pick at all, so applying it changes no commit and
/// moves no reference.
pub proof fn lemma_patch_id_idempotence(
    repo: Repo,
    nodes: Seq<Node>,
    source: NonZeroOid,
    dest: NonZeroOid,
    plan: RebasePlan,
)
    requires
        plan_ok(repo, nodes, source, dest, true, plan),
        forall|k: int|
            0 <= k < nodes.len() && in_subtree(nodes, source.num, k) ==> dup_in_dest(
                repo.commits@,
                dest.num,
                patch_of(repo.commits@, (#[trigger] nodes[k]).commit_oid.num),
            ),
    ensures
        num_picks(plan.steps@) == 0,
{
    assert forall|s: int| 0 <= s < plan.steps@.len() implies !((#[trigger] plan.steps@[s]) matches
        RebaseStep::Pick { .. }) by {
        match plan.steps@[s] {
            RebaseStep::Pick { commit_oid } => {
                let k = node_idx_of(nodes, commit_oid.num);
                assert(graph_has(nodes, commit_oid.num));
                assert(0 <= k < nodes.len() && nodes[k].commit_oid.num == commit_oid.num);
                assert(in_subtree(nodes, source.num, k));
                assert(dup_in_dest(
                    repo.commits@,
                    dest.num,
                    patch_of(repo.commits@, commit_oid.num),
                ));
            },
            _ => {},
        }
    }
    lemma_num_picks_zero(plan.steps@);
}

/// Pushing a step neither loses nor invents picks of other commits.
proof fn lemma_steps_push(s: Seq<RebaseStep>, x: RebaseStep)
    ensures
        forall|o: u64| has_pick(s, o) ==> has_pick(s.push(x), o),
        forall|o: u64| has_pick(s.push(x), o) ==> has_pick(s, o) || is_pick_of(x, o),
        forall|o: u64| is_pick_of(x, o) ==> has_pick(s.push(x), o),
{
    assert forall|o: u64| has_pick(s, o) implies has_pick(s.push(x), o) by {
        let w = choose|w: int| 0 <= w < s.len() && is_pick_of(#[trigger] s[w], o);
        assert(is_pick_of(s.push(x)[w], o));
    }
    assert forall|o: u64| has_pick(s.push(x), o) implies has_pick(s, o) || is_pick_of(x, o) by {
        let w = choose|w: int| 0 <= w < s.push(x).len() && is_pick_of(#[trigger] s.push(x)[w], o);
        if w < s.len() {
            assert(is_pick_of(s[w], o));
        }
    }
    assert forall|o: u64| is_pick_of(x, o) implies has_pick(s.push(x), o) by {
        assert(is_pick_of(s.push(x)[s.len() as int], o));
    }
}

/// Pushing a rewrite record keeps and adds exactly as expected.
proof fn lemma_rw_push(s: Seq<(NonZeroOid, NonZeroOid)>, x: (NonZeroOid, NonZeroOid))
    ensures
        forall|o: u64| has_rewrite(s, o) ==> has_rewrite(s.push(x), o),
        has_rewrite(s.push(x), x.0.num),
{
    assert forall|o: u64| has_rewrite(s, o) implies has_rewrite(s.push(x), o) by {
        let w = choose|w: int| 0 <= w < s.len() && (#[trigger] s[w]).0.num == o;
        assert(s.push(x)[w].0.num == o);
    }
    assert(s.push(x)[s.len() as int].0.num == x.0.num);
}

/// Mark, for each node, whether it lies in the subtree rooted at `source`.
#[verifier::loop_isolation(false)]
fn mark_subtree(repo: &Repo, graph: &CommitGraph, source: u64) -> (marks: Vec<bool>)
    requires
        repo.wf(),
        graph_wf(*repo, graph.nodes@),
    ensures
        marks@.len() == graph.nodes@.len(),
        forall|k: int|
            0 <= k < marks@.len() ==> #[trigger] marks@[k] == in_subtree(graph.nodes@, source, k),
{
    let n = graph.len();
    let mut marks: Vec<bool> = Vec::new();
    let mut k: usize = 0;
    while k < n
        invariant
            k <= n,
            marks@.len() == k,
            forall|k2: int|
                0 <= k2 < k ==> #[trigger] marks@[k2] == in_subtree(graph.nodes@, source, k2),
        decreases n - k,
    {
        proof {
            reveal(in_subtree);
        }
        let nd = &graph.nodes[k];
        let m: bool = if nd.commit_oid.num == source {
            true
        } else {
            match &nd.parent {
                Some(p) => {
                    proof {
                        crate::graph::lemma_parent_node_before(*repo, graph.nodes@, k as int);
                    }
                    match graph.find_node_index(p.num) {
                        Some(j) => {
                            proof {
                                crate::graph::lemma_graph_unique(
                                    *repo,
                                    graph.nodes@,
                                    j as int,
                                    node_idx_of(graph.nodes@, p.num),
                                );
                            }
                            marks[j]
                        },
                        None => {
                            proof {
                                assert(graph_has(graph.nodes@, p.num));
                                assert(false);
                            }
                            false
                        },
                    }
                },
                None => false,
            }
        };
        marks.push(m);
        k += 1;
    }
    marks
}

/// The destination's ancestor patch ids, each paired with its commit.
#[verifier::loop_isolation(false)]
fn dest_patch_table(repo: &Repo, dest: u64) -> (t: Vec<(u64, u64)>)
    requires
        repo.wf(),
        has_commit(repo.commits@, dest),
    ensures
        t@.len() == chain_oids(repo.commits@, idx_of(repo.commits@, dest)).len(),
        forall|q: int|
            0 <= q < t@.len() ==> (#[trigger] t@[q]).1 == chain_oids(
                repo.commits@,
                idx_of(repo.commits@, dest),
            )[q] && t@[q].0 == patch_of(
                repo.commits@,
                chain_oids(repo.commits@, idx_of(repo.commits@, dest))[q],
            ) && has_commit(repo.commits@, t@[q].1),
{
    let chain = crate::mergebase::commit_chain(repo, dest);
    proof {
        crate::mergebase::lemma_chain_oids_members(repo.commits@, idx_of(repo.commits@, dest));
    }
    let nq = chain.len();
    let mut t: Vec<(u64, u64)> = Vec::new();
    let mut q: usize = 0;
    while q < nq
        invariant
            q <= nq,
            nq == chain@.len(),
            t@.len() == q,
            forall|q2: int|
                0 <= q2 < q ==> (#[trigger] t@[q2]).1 == chain@[q2] && t@[q2].0 == patch_of(
                    repo.commits@,
                    chain@[q2],
                ) && has_commit(repo.commits@, t@[q2].1),
        decreases nq - q,
    {
        let o = chain[q];
        match repo.find_commit(o) {
            Some(c) => {
                t.push((c.patch_id, o));
            },
            None => {
                proof {
                    assert(false);
                }
            },
        }
        q += 1;
    }
    t
}

/// The patch id of a commit known to the table.
fn commit_patch(repo: &Repo, oid: u64) -> (p: u64)
    requires
        repo.commits_wf(),
        has_commit(repo.commits@, oid),
    ensures
        p == patch_of(repo.commits@, oid),
{
    match repo.find_commit(oid) {
        Some(c) => c.patch_id,
        None => {
            proof {
                assert(false);
            }
            0
        },
    }
}

/// Look a patch id up in the destination's ancestor table.
fn find_dup(table: &Vec<(u64, u64)>, pid: u64) -> (r: Option<u64>)
    ensures
        r matches Some(m) ==> exists|q: int|
            0 <= q < table@.len() && (#[trigger] table@[q]).0 == pid && table@[q].1 == m,
        r is None ==> forall|q: int| 0 <= q < table@.len() ==> (#[trigger] table@[q]).0 != pid,
{
    let nq = table.len();
    let mut q: usize = 0;
    while q < nq
        invariant
            q <= nq,
            nq == table@.len(),
            forall|q2: int| 0 <= q2 < q ==> (#[trigger] table@[q2]).0 != pid,
        decreases nq - q,
    {
        let e = &table[q];
        if e.0 == pid {
            proof {
                assert((#[trigger] table@[q as int]).0 == pid && table@[q as int].1 == e.1);
            }
            return Some(e.1);
        }
        q += 1;
    }
    None
}

/// Whether a pick step respects the plan's promises.
#[verifier::opaque]
pub open spec fn pick_step_ok(
    repo: Repo,
    nodes: Seq<Node>,
    source: NonZeroOid,
    dest: NonZeroOid,
    detect: bool,
    step: RebaseStep,
) -> bool {
    step matches RebaseStep::Pick { commit_oid } ==> {
        &&& graph_has(nodes, commit_oid.num)
        &&& in_subtree(nodes, source.num, node_idx_of(nodes, commit_oid.num))
        &&& has_commit(repo.commits@, commit_oid.num)
        &&& (detect ==> !dup_in_dest(repo.commits@, dest.num, patch_of(repo.commits@, commit_oid.num)))
    }
}

/// Emit the steps (or the rewrite record) for one subtree commit.
#[verifier::loop_isolation(false)]
#[verifier::rlimit(100)]
#[verifier::spinoff_prover]
fn emit_for_node(
    repo: &Repo,
    graph: &CommitGraph,
    source_oid: NonZeroOid,
    dest_oid: NonZeroOid,
    detect: bool,
    table: &Vec<(u64, u64)>,
    marks: &Vec<bool>,
    k: usize,
    steps: &mut Vec<RebaseStep>,
    rewritten: &mut Vec<(NonZeroOid, NonZeroOid)>,
)
    requires
        repo.wf(),
        graph_wf(*repo, graph.nodes@),
        k < graph.nodes@.len(),
        marks@.len() == graph.nodes@.len(),
        forall|k2: int|
            0 <= k2 < marks@.len() ==> #[trigger] marks@[k2] == in_subtree(
                graph.nodes@,
                source_oid.num,
                k2,
            ),
        marks@[k as int],
        has_commit(repo.commits@, dest_oid.num),
        table@.len() == chain_oids(repo.commits@, idx_of(repo.commits@, dest_oid.num)).len(),
        forall|q: int|
            0 <= q < table@.len() ==> (#[trigger] table@[q]).1 == chain_oids(
                repo.commits@,
                idx_of(repo.commits@, dest_oid.num),
            )[q] && table@[q].0 == patch_of(
                repo.commits@,
                chain_oids(repo.commits@, idx_of(repo.commits@, dest_oid.num))[q],
            ) && has_commit(repo.commits@, table@[q].1),
        forall|s: int|
            0 <= s < old(steps)@.len() ==> pick_step_ok(
                *repo,
                graph.nodes@,
                source_oid,
                dest_oid,
                detect,
                #[trigger] old(steps)@[s],
            ),
    ensures
        final(steps)@.len() <= old(steps)@.len() + 3,
        final(rewritten)@.len() <= old(rewritten)@.len() + 1,
        forall|s: int|
            0 <= s < final(steps)@.len() ==> pick_step_ok(
                *repo,
                graph.nodes@,
                source_oid,
                dest_oid,
                detect,
                #[trigger] final(steps)@[s],
            ),
        forall|o: u64| has_pick(old(steps)@, o) ==> has_pick(final(steps)@, o),
        forall|o: u64| has_rewrite(old(rewritten)@, o) ==> has_rewrite(final(rewritten)@, o),
        forall|s: int| 0 <= s < old(steps)@.len() ==> final(steps)@[s] == old(steps)@[s],
        forall|s: int|
            old(steps)@.len() <= s < final(steps)@.len() ==> ((#[trigger] final(steps)@[s]) matches
                RebaseStep::Pick { commit_oid } ==> commit_oid == graph.nodes@[k as int].commit_oid
                && s == old(steps)@.len() + 1),
        forall|s: int| 0 <= s < old(rewritten)@.len() ==> final(rewritten)@[s] == old(rewritten)@[s],
        forall|s: int|
            old(rewritten)@.len() <= s < final(rewritten)@.len() ==> rw_pair_ok(
                *repo,
                graph.nodes@,
                source_oid,
                dest_oid,
                #[trigger] final(rewritten)@[s],
            ),
        ({
            if detect && dup_in_dest(
                repo.commits@,
                dest_oid.num,
                patch_of(repo.commits@, graph.nodes@[k as int].commit_oid.num),
            ) {
                has_rewrite(final(rewritten)@, graph.nodes@[k as int].commit_oid.num)
            } else {
                has_pick(final(steps)@, graph.nodes@[k as int].commit_oid.num)
            }
        }),
{
        let nd = &graph.nodes[k];
        proof {
            assert(has_commit(repo.commits@, graph.nodes@[k as int].commit_oid.num));
            crate::graph::lemma_graph_unique(
                *repo,
                graph.nodes@,
                k as int,
                node_idx_of(graph.nodes@, graph.nodes@[k as int].commit_oid.num),
            );
        }
        let pid = commit_patch(repo, nd.commit_oid.num);
        let dup: Option<u64> = if detect {
            find_dup(&table, pid)
        } else {
            None
        };
        match dup {
            Some(m) => {
                proof {
                    assert(dup_in_dest(
                        repo.commits@,
                        dest_oid.num,
                        patch_of(repo.commits@, graph.nodes@[k as int].commit_oid.num),
                    )) by {
                        reveal(dup_in_dest);
                        let q = choose|q: int|
                            0 <= q < table@.len() && (#[trigger] table@[q]).0 == pid
                                && table@[q].1 == m;
                        assert(chain_oids(repo.commits@, idx_of(repo.commits@, dest_oid.num))[q]
                            == table@[q].1);
                    }
                    lemma_rw_push(
                        rewritten@,
                        (graph.nodes@[k as int].commit_oid, NonZeroOid { num: m }),
                    );
                }
                proof {
                    assert(has_commit(repo.commits@, m)) by {
                        let q = choose|q: int|
                            0 <= q < table@.len() && (#[trigger] table@[q]).0 == pid
                                && table@[q].1 == m;
                    }
                }
                let mut name = String::from_str("label-");
                let t = nd.commit_oid.to_text();
                name.append(t.as_str());
                let ghost st0 = steps@;
                steps.push(RebaseStep::CreateLabel { commit_oid: NonZeroOid { num: m }, name });
                proof {
                    assert forall|s: int| 0 <= s < steps@.len() implies pick_step_ok(
                        *repo,
                        graph.nodes@,
                        source_oid,
                        dest_oid,
                        detect,
                        #[trigger] steps@[s],
                    ) by {
                        if s < st0.len() {
                            assert(steps@[s] == st0[s]);
                            assert(pick_step_ok(
                                *repo,
                                graph.nodes@,
                                source_oid,
                                dest_oid,
                                detect,
                                st0[s],
                            ));
                        } else {
                            reveal(pick_step_ok);
                        }
                    }
                    assert forall|o: u64| has_pick(st0, o) implies has_pick(steps@, o) by {
                        let w = choose|w: int| 0 <= w < st0.len() && is_pick_of(#[trigger] st0[w], o);
                        assert(is_pick_of(steps@[w], o));
                    }
                    assert forall|o: u64| has_pick(steps@, o) implies has_pick(st0, o) by {
                        let w = choose|w: int|
                            0 <= w < steps@.len() && is_pick_of(#[trigger] steps@[w], o);
                        if w < st0.len() {
                            assert(is_pick_of(st0[w], o));
                        }
                    }
                }
                proof {
                    let pr = (graph.nodes@[k as int].commit_oid, NonZeroOid { num: m });
                    assert(rw_pair_ok(*repo, graph.nodes@, source_oid, dest_oid, pr)) by {
                        let q = choose|q: int|
                            0 <= q < table@.len() && (#[trigger] table@[q]).0 == pid
                                && table@[q].1 == m;
                        let chain = chain_oids(repo.commits@, idx_of(repo.commits@, dest_oid.num));
                        assert(chain[q] == m);
                        assert(chain.contains(m));
                        assert(table@[q].0 == patch_of(repo.commits@, chain[q]));
                        assert(patch_of(repo.commits@, m) == pid);
                        assert(node_idx_of(graph.nodes@, pr.0.num) == k as int);
                    }
                }
                rewritten.push((nd.commit_oid, NonZeroOid { num: m }));
            },
            None => {
                proof {
                    if detect {
                        assert(!dup_in_dest(
                            repo.commits@,
                            dest_oid.num,
                            patch_of(repo.commits@, graph.nodes@[k as int].commit_oid.num),
                        )) by {
                            reveal(dup_in_dest);
                            if dup_in_dest(
                                repo.commits@,
                                dest_oid.num,
                                patch_of(repo.commits@, graph.nodes@[k as int].commit_oid.num),
                            ) {
                                let q = choose|q: int|
                                    0 <= q < chain_oids(
                                        repo.commits@,
                                        idx_of(repo.commits@, dest_oid.num),
                                    ).len() && repo.commits@[idx_of(
                                        repo.commits@,
                                        #[trigger] chain_oids(
                                            repo.commits@,
                                            idx_of(repo.commits@, dest_oid.num),
                                        )[q],
                                    )].patch_id == patch_of(
                                        repo.commits@,
                                        graph.nodes@[k as int].commit_oid.num,
                                    );
                                assert(table@[q].0 == patch_of(
                                    repo.commits@,
                                    graph.nodes@[k as int].commit_oid.num,
                                ));
                                assert(false);
                            }
                        }
                    }
                }
                // reset onto the parent's bookmark (or the destination),
                // pick the commit, and bookmark it
                let reset_to: String = match &nd.parent {
                    Some(p) => {
                        let in_sub = match graph.find_node_index(p.num) {
                            Some(j) => marks[j],
                            None => false,
                        };
                        if in_sub {
                            let mut nm = String::from_str("label-");
                            let t = p.to_text();
                            nm.append(t.as_str());
                            nm
                        } else {
                            String::from_str("onto")
                        }
                    },
                    None => String::from_str("onto"),
                };
                let ghost st0 = steps@;
                steps.push(RebaseStep::Reset { name: reset_to });
                steps.push(RebaseStep::Pick { commit_oid: nd.commit_oid });
                let mut nm2 = String::from_str("label-");
                let t2 = nd.commit_oid.to_text();
                nm2.append(t2.as_str());
                steps.push(RebaseStep::Label { name: nm2 });
                proof {
                    assert forall|s: int| 0 <= s < steps@.len() implies pick_step_ok(
                        *repo,
                        graph.nodes@,
                        source_oid,
                        dest_oid,
                        detect,
                        #[trigger] steps@[s],
                    ) by {
                        if s < st0.len() {
                            assert(steps@[s] == st0[s]);
                            assert(pick_step_ok(
                                *repo,
                                graph.nodes@,
                                source_oid,
                                dest_oid,
                                detect,
                                st0[s],
                            ));
                        } else {
                            reveal(pick_step_ok);
                            if s == st0.len() + 1 {
                                assert(steps@[s] == RebaseStep::Pick {
                                    commit_oid: graph.nodes@[k as int].commit_oid,
                                });
                            }
                        }
                    }
                    assert forall|o: u64| has_pick(st0, o) implies has_pick(steps@, o) by {
                        let w = choose|w: int| 0 <= w < st0.len() && is_pick_of(#[trigger] st0[w], o);
                        assert(is_pick_of(steps@[w], o));
                    }
                    assert(is_pick_of(
                        steps@[st0.len() as int + 1],
                        graph.nodes@[k as int].commit_oid.num,
                    ));
                    assert(has_pick(steps@, graph.nodes@[k as int].commit_oid.num));
                }
            },
        }
    proof {
        assert forall|o: u64| has_rewrite(old(rewritten)@, o) implies has_rewrite(
            rewritten@,
            o,
        ) by {
            let w = choose|w: int|
                0 <= w < old(rewritten)@.len() && (#[trigger] old(rewritten)@[w]).0.num == o;
            assert(rewritten@[w].0.num == o);
        }
    }
}

/// Emit steps and rewrite records for the whole subtree, in table order.
#[verifier::loop_isolation(false)]
#[verifier::rlimit(100)]
#[verifier::spinoff_prover]
fn emit_all(
    repo: &Repo,
    graph: &CommitGraph,
    source_oid: NonZeroOid,
    dest_oid: NonZeroOid,
    detect: bool,
    marks: &Vec<bool>,
) -> (r: (Vec<RebaseStep>, Vec<(NonZeroOid, NonZeroOid)>))
    requires
        repo.wf(),
        graph_wf(*repo, graph.nodes@),
        has_commit(repo.commits@, dest_oid.num),
        marks@.len() == graph.nodes@.len(),
        forall|k2: int|
            0 <= k2 < marks@.len() ==> #[trigger] marks@[k2] == in_subtree(
                graph.nodes@,
                source_oid.num,
                k2,
            ),
    ensures
        r.0@.len() <= 1 + 3 * graph.nodes@.len(),
        r.1@.len() <= graph.nodes@.len(),
        forall|s: int|
            0 <= s < r.0@.len() ==> pick_step_ok(
                *repo,
                graph.nodes@,
                source_oid,
                dest_oid,
                detect,
                #[trigger] r.0@[s],
            ),
        forall|k2: int|
            0 <= k2 < graph.nodes@.len() && in_subtree(graph.nodes@, source_oid.num, k2) ==> {
                if detect && dup_in_dest(
                    repo.commits@,
                    dest_oid.num,
                    patch_of(repo.commits@, (#[trigger] graph.nodes@[k2]).commit_oid.num),
                ) {
                    has_rewrite(r.1@, graph.nodes@[k2].commit_oid.num)
                } else {
                    has_pick(r.0@, graph.nodes@[k2].commit_oid.num)
                }
            },
        forall|s: int|
            0 <= s < r.1@.len() ==> rw_pair_ok(
                *repo,
                graph.nodes@,
                source_oid,
                dest_oid,
                #[trigger] r.1@[s],
            ),
        forall|s1: int, s2: int|
            0 <= s1 < s2 < r.0@.len() ==> ((#[trigger] r.0@[s1]) matches RebaseStep::Pick {
                commit_oid: c1,
            } ==> ((#[trigger] r.0@[s2]) matches RebaseStep::Pick { commit_oid: c2 }
                ==> node_idx_of(graph.nodes@, c1.num) < node_idx_of(graph.nodes@, c2.num))),
{
    let table = dest_patch_table(repo, dest_oid.num);
    let n = graph.len();
    let mut steps: Vec<RebaseStep> = Vec::new();
    let mut rewritten: Vec<(NonZeroOid, NonZeroOid)> = Vec::new();
    steps.push(RebaseStep::Label { name: String::from_str("onto") });
    proof {
        reveal(pick_step_ok);
    }
    let mut k: usize = 0;
    while k < n
        invariant
            k <= n,
            n == graph.nodes@.len(),
            marks@.len() == n,
            forall|k2: int|
                0 <= k2 < marks@.len() ==> #[trigger] marks@[k2] == in_subtree(
                    graph.nodes@,
                    source_oid.num,
                    k2,
                ),
            forall|s: int|
                0 <= s < steps@.len() ==> pick_step_ok(
                    *repo,
                    graph.nodes@,
                    source_oid,
                    dest_oid,
                    detect,
                    #[trigger] steps@[s],
                ),
            steps@.len() <= 1 + 3 * k,
            rewritten@.len() <= k,
            forall|s: int|
                0 <= s < rewritten@.len() ==> rw_pair_ok(
                    *repo,
                    graph.nodes@,
                    source_oid,
                    dest_oid,
                    #[trigger] rewritten@[s],
                ),
            forall|s: int|
                0 <= s < steps@.len() ==> ((#[trigger] steps@[s]) matches RebaseStep::Pick {
                    commit_oid: c,
                } ==> 0 <= node_idx_of(graph.nodes@, c.num) < k),
            forall|s1: int, s2: int|
                0 <= s1 < s2 < steps@.len() ==> ((#[trigger] steps@[s1]) matches RebaseStep::Pick {
                    commit_oid: c1,
                } ==> ((#[trigger] steps@[s2]) matches RebaseStep::Pick { commit_oid: c2 }
                    ==> node_idx_of(graph.nodes@, c1.num) < node_idx_of(graph.nodes@, c2.num))),
            forall|k2: int|
                0 <= k2 < k && in_subtree(graph.nodes@, source_oid.num, k2) ==> {
                    if detect && dup_in_dest(
                        repo.commits@,
                        dest_oid.num,
                        patch_of(repo.commits@, (#[trigger] graph.nodes@[k2]).commit_oid.num),
                    ) {
                        has_rewrite(rewritten@, graph.nodes@[k2].commit_oid.num)
                    } else {
                        has_pick(steps@, graph.nodes@[k2].commit_oid.num)
                    }
                },
        decreases n - k,
    {
        if marks[k] {
            let ghost steps0 = steps@;
            let ghost rw0 = rewritten@;
            emit_for_node(
                repo,
                graph,
                source_oid,
                dest_oid,
                detect,
                &table,
                &marks,
                k,
                &mut steps,
                &mut rewritten,
            );
            proof {
                assert forall|k2: int|
                    0 <= k2 < k + 1 && in_subtree(graph.nodes@, source_oid.num, k2) implies {
                    if detect && dup_in_dest(
                        repo.commits@,
                        dest_oid.num,
                        patch_of(repo.commits@, (#[trigger] graph.nodes@[k2]).commit_oid.num),
                    ) {
                        has_rewrite(rewritten@, graph.nodes@[k2].commit_oid.num)
                    } else {
                        has_pick(steps@, graph.nodes@[k2].commit_oid.num)
                    }
                } by {
                    if k2 < k {
                        if detect && dup_in_dest(
                            repo.commits@,
                            dest_oid.num,
                            patch_of(repo.commits@, graph.nodes@[k2].commit_oid.num),
                        ) {
                            assert(has_rewrite(rw0, graph.nodes@[k2].commit_oid.num));
                        } else {
                            assert(has_pick(steps0, graph.nodes@[k2].commit_oid.num));
                        }
                    }
                }
                crate::graph::lemma_graph_unique(
                    *repo,
                    graph.nodes@,
                    k as int,
                    node_idx_of(graph.nodes@, graph.nodes@[k as int].commit_oid.num),
                );
                assert forall|s: int|
                    0 <= s < steps@.len() implies ((#[trigger] steps@[s]) matches RebaseStep::Pick {
                    commit_oid: c,
                } ==> 0 <= node_idx_of(graph.nodes@, c.num) < k + 1) by {
                    match steps@[s] {
                        RebaseStep::Pick { commit_oid } => {
                            if s < steps0.len() {
                                assert(steps@[s] == steps0[s]);
                            } else {
                                assert(commit_oid == graph.nodes@[k as int].commit_oid);
                            }
                        },
                        _ => {},
                    }
                }
                assert forall|s1: int, s2: int|
                    0 <= s1 < s2 < steps@.len() implies ((#[trigger] steps@[s1]) matches
                    RebaseStep::Pick { commit_oid: c1 } ==> ((#[trigger] steps@[s2]) matches
                    RebaseStep::Pick { commit_oid: c2 } ==> node_idx_of(graph.nodes@, c1.num)
                    < node_idx_of(graph.nodes@, c2.num))) by {
                    match (steps@[s1], steps@[s2]) {
                        (RebaseStep::Pick { commit_oid: c1 }, RebaseStep::Pick { commit_oid: c2 }) => {
                            if s2 < steps0.len() {
                                assert(steps@[s1] == steps0[s1] && steps@[s2] == steps0[s2]);
                            } else if s1 < steps0.len() {
                                assert(steps@[s1] == steps0[s1]);
                                assert(0 <= node_idx_of(graph.nodes@, c1.num) < k);
                                assert(c2 == graph.nodes@[k as int].commit_oid);
                                assert(c2.num == graph.nodes@[k as int].commit_oid.num);
                                assert(node_idx_of(graph.nodes@, c2.num) == k as int);
                            } else {
                                assert(s1 == steps0.len() + 1 && s2 == steps0.len() + 1);
                            }
                        },
                        _ => {},
                    }
                }
            }
        }
        k += 1;
    }

    (steps, rewritten)
}

/// Build the ordered rebase plan that moves the subtree rooted at
/// `source_oid` onto `dest_oid`. Yields `None` when the source already
/// sits on the destination, a structured error when a commit is missing or
/// the destination lies inside the subtree, and otherwise a plan meeting
/// `plan_ok`.
#[verifier::loop_isolation(false)]
#[verifier::rlimit(100)]
#[verifier::spinoff_prover]
pub fn build_rebase_plan(
    repo: &Repo,
    graph: &CommitGraph,
    source_oid: NonZeroOid,
    dest_oid: NonZeroOid,
    options: &BuildRebasePlanOptions,
) -> (r: Result<Option<RebasePlan>, BuildRebasePlanError>)
    requires
        repo.wf(),
        graph_wf(*repo, graph.nodes@),
    ensures
        match r {
            Result::Err(e) => match e {
                BuildRebasePlanError::CommitNotFound { oid } => (!graph_has(
                    graph.nodes@,
                    source_oid.num,
                ) && oid == source_oid) || (graph_has(graph.nodes@, source_oid.num) && !graph_has(
                    graph.nodes@,
                    dest_oid.num,
                ) && oid == dest_oid),
                BuildRebasePlanError::SubtreeIncludesDest { dest_oid: d } => graph_has(
                    graph.nodes@,
                    source_oid.num,
                ) && graph_has(graph.nodes@, dest_oid.num) && in_subtree(
                    graph.nodes@,
                    source_oid.num,
                    node_idx_of(graph.nodes@, dest_oid.num),
                ) && d == dest_oid,
                _ => false,
            },
            Result::Ok(None) => graph_has(graph.nodes@, source_oid.num) && graph_has(
                graph.nodes@,
                dest_oid.num,
            ) && !in_subtree(graph.nodes@, source_oid.num, node_idx_of(graph.nodes@, dest_oid.num))
                && crate::graph::node_of(graph.nodes@, source_oid.num).parent == Some(dest_oid),
            Result::Ok(Some(plan)) => graph_has(graph.nodes@, source_oid.num) && graph_has(
                graph.nodes@,
                dest_oid.num,
            ) && !in_subtree(graph.nodes@, source_oid.num, node_idx_of(graph.nodes@, dest_oid.num))
                && crate::graph::node_of(graph.nodes@, source_oid.num).parent != Some(dest_oid)
                && plan_ok(
                *repo,
                graph.nodes@,
                source_oid,
                dest_oid,
                options.detect_duplicate_commits_via_patch_id,
                plan,
            ),
        },
{
    let src_idx = match graph.find_node_index(source_oid.num) {
        Some(k) => k,
        None => {
            return Result::Err(BuildRebasePlanError::CommitNotFound { oid: source_oid });
        },
    };
    proof {
        assert(graph_has(graph.nodes@, source_oid.num));
    }
    let dest_idx = match graph.find_node_index(dest_oid.num) {
        Some(k) => k,
        None => {
            return Result::Err(BuildRebasePlanError::CommitNotFound { oid: dest_oid });
        },
    };
    proof {
        assert(graph_has(graph.nodes@, dest_oid.num));
        crate::graph::lemma_graph_unique(
            *repo,
            graph.nodes@,
            dest_idx as int,
            node_idx_of(graph.nodes@, dest_oid.num),
        );
        crate::graph::lemma_graph_unique(
            *repo,
            graph.nodes@,
            src_idx as int,
            node_idx_of(graph.nodes@, source_oid.num),
        );
    }
    let marks = mark_subtree(repo, graph, source_oid.num);
    if marks[dest_idx] {
        return Result::Err(BuildRebasePlanError::SubtreeIncludesDest { dest_oid });
    }
    // no-op: the source already sits on the destination
    let src_parent_is_dest: bool = match &graph.nodes[src_idx].parent {
        Some(p) => p.num == dest_oid.num,
        None => false,
    };
    proof {
        match graph.nodes@[src_idx as int].parent {
            Some(p) => {
                assert(src_parent_is_dest == (p == dest_oid));
            },
            None => {},
        }
    }
    if src_parent_is_dest {
        return Result::Ok(None);
    }
    let detect = options.detect_duplicate_commits_via_patch_id;
    let built = emit_all(repo, graph, source_oid, dest_oid, detect, &marks);
    let steps = built.0;
    let rewritten = built.1;
    proof {
        reveal(pick_step_ok);
        assert forall|k2: int|
            0 <= k2 < graph.nodes@.len() && in_subtree(
                graph.nodes@,
                source_oid.num,
                k2,
            ) implies {
            if detect && dup_in_dest(
                repo.commits@,
                dest_oid.num,
                patch_of(repo.commits@, (#[trigger] graph.nodes@[k2]).commit_oid.num),
            ) {
                has_rewrite(rewritten@, graph.nodes@[k2].commit_oid.num) && !has_pick(
                    steps@,
                    graph.nodes@[k2].commit_oid.num,
                )
            } else {
                has_pick(steps@, graph.nodes@[k2].commit_oid.num)
            }
        } by {
            if detect && dup_in_dest(
                repo.commits@,
                dest_oid.num,
                patch_of(repo.commits@, graph.nodes@[k2].commit_oid.num),
            ) {
                if has_pick(steps@, graph.nodes@[k2].commit_oid.num) {
                    let w = choose|w: int|
                        0 <= w < steps@.len() && is_pick_of(
                            #[trigger] steps@[w],
                            graph.nodes@[k2].commit_oid.num,
                        );
                    match steps@[w] {
                        RebaseStep::Pick { commit_oid } => {
                            assert(!dup_in_dest(
                                repo.commits@,
                                dest_oid.num,
                                patch_of(repo.commits@, commit_oid.num),
                            ));
                            assert(false);
                        },
                        _ => {
                            assert(false);
                        },
                    }
                }
            }
        }
    }
    Result::Ok(
        Some(RebasePlan { first_dest_oid: dest_oid, steps, rewritten_oids: rewritten }),
    )
}

/// Options for executing a plan. The in-memory application below never
/// merges working trees, so it cannot conflict; the two force flags are
/// carried for the shell, which may hand the plan to an on-disk rebase
/// instead.
#[derive(Clone, Copy, Debug)]
pub struct ExecuteRebasePlanOptions {
    /// The wall-clock time of the operation, seconds since epoch.
    pub now: u64,
    /// The transaction all emitted events belong to.
    pub event_tx_id: u64,
    /// Keep the original committer timestamps instead of `now`.
    pub preserve_timestamps: bool,
    pub force_in_memory: bool,
    pub force_on_disk: bool,
}

/// A pick count is never negative.
proof fn lemma_num_picks_nonneg(steps: Seq<RebaseStep>)
    ensures
        num_picks(steps) >= 0,
    decreases steps.len(),
{
    if steps.len() > 0 {
        lemma_num_picks_nonneg(steps.drop_last());
    }
}

/// A pick pair stays valid when the step prefix grows.
proof fn lemma_pick_events_extend(steps: Seq<RebaseStep>, s: int, e1: Event, e2: Event)
    requires
        0 <= s < steps.len(),
        pick_events_ok(steps.take(s), e1, e2),
    ensures
        pick_events_ok(steps.take(s + 1), e1, e2),
{
    match e2 {
        Event::RewriteEvent { old_commit_oid, .. } => {
            let w = choose|w: int|
                0 <= w < steps.take(s).len() && is_pick_of(
                    #[trigger] steps.take(s)[w],
                    old_commit_oid.num,
                );
            assert(is_pick_of(steps.take(s + 1)[w], old_commit_oid.num));
        },
        _ => {},
    }
}

/// Counting picks step by step.
proof fn lemma_num_picks_take(steps: Seq<RebaseStep>, i: int)
    requires
        0 <= i < steps.len(),
    ensures
        num_picks(steps.take(i + 1)) == num_picks(steps.take(i)) + (if (steps[i] matches
            RebaseStep::Pick { .. }) {
            1int
        } else {
            0int
        }),
{
    assert(steps.take(i + 1).drop_last() =~= steps.take(i));
    assert(steps.take(i + 1).last() == steps[i]);
}

/// The commit a pick creates: one parent, and the picked commit's message
/// and patch.
pub open spec fn pick_feeds(commits0: Seq<crate::repo::CommitData>, step: RebaseStep, c: crate::repo::CommitData) -> bool {
    step matches RebaseStep::Pick { commit_oid } && c.parents@.len() == 1 && c.patch_id
        == patch_of(commits0, commit_oid.num) && c.message@ == commits0[idx_of(
        commits0,
        commit_oid.num,
    )].message@
}

/// Whether some pick step of the plan feeds the commit.
pub open spec fn picked_into(
    commits0: Seq<crate::repo::CommitData>,
    steps: Seq<RebaseStep>,
    c: crate::repo::CommitData,
) -> bool {
    exists|s: int| 0 <= s < steps.len() && pick_feeds(commits0, #[trigger] steps[s], c)
}

/// The two events a pick appends: the new commit's creation, then the
/// rewrite of a picked commit onto it.
pub open spec fn pick_events_ok(steps: Seq<RebaseStep>, e1: Event, e2: Event) -> bool {
    match (e1, e2) {
        (
            Event::CommitEvent { commit_oid: c1, .. },
            Event::RewriteEvent { old_commit_oid, new_commit_oid, .. },
        ) => new_commit_oid == c1 && has_pick(steps, old_commit_oid.num),
        _ => false,
    }
}

/// The event a skipped duplicate appends: exactly its recorded rewrite.
pub open spec fn rewrite_event_ok(e: Event, pr: (NonZeroOid, NonZeroOid)) -> bool {
    match e {
        Event::RewriteEvent { old_commit_oid, new_commit_oid, .. } => old_commit_oid == pr.0
            && new_commit_oid == pr.1,
        _ => false,
    }
}

/// What executing a plan leaves behind, over the states before and after:
/// one new commit per pick, each fed by a pick; the appended events are
/// the pick pairs, then exactly the recorded rewrites, then reference
/// updates, all of one transaction and one timestamp; and a plan without
/// picks changes nothing.
pub open spec fn exec_post(
    repo0: Repo,
    repo1: Repo,
    log0: Seq<Event>,
    log1: Seq<Event>,
    plan: RebasePlan,
    tx: u64,
    now: u64,
) -> bool {
    &&& repo1.commits@.len() == repo0.commits@.len() + num_picks(plan.steps@)
    &&& forall|i: int| 0 <= i < repo0.commits@.len() ==> repo1.commits@[i] == repo0.commits@[i]
    &&& forall|i: int|
        repo0.commits@.len() <= i < repo1.commits@.len() ==> picked_into(
            repo0.commits@,
            plan.steps@,
            #[trigger] repo1.commits@[i],
        )
    &&& (num_picks(plan.steps@) == 0 ==> repo1.commits@ == repo0.commits@ && repo1.branches@
        == repo0.branches@ && repo1.head_oid == repo0.head_oid)
    &&& log1.len() >= log0.len() + 2 * num_picks(plan.steps@) + plan.rewritten_oids@.len()
    &&& forall|i: int| 0 <= i < log0.len() ==> log1[i] == log0[i]
    &&& forall|i: int| log0.len() <= i < log1.len() ==> (#[trigger] log1[i]).tx_id() == tx
    &&& forall|i: int| log0.len() <= i < log1.len() ==> (#[trigger] log1[i]).timestamp_of() == now
    &&& forall|q: int|
        0 <= q < num_picks(plan.steps@) ==> pick_events_ok(
            plan.steps@,
            #[trigger] log1[log0.len() + 2 * q],
            log1[log0.len() + 2 * q + 1],
        )
    &&& forall|q: int|
        0 <= q < plan.rewritten_oids@.len() ==> rewrite_event_ok(
            #[trigger] log1[log0.len() + 2 * num_picks(plan.steps@) + q],
            plan.rewritten_oids@[q],
        )
    &&& forall|i: int|
        log0.len() + 2 * num_picks(plan.steps@) + plan.rewritten_oids@.len() <= i < log1.len()
            ==> (#[trigger] log1[i]) matches Event::RefUpdateEvent { .. }
}

/// Apply a rebase plan in memory: each pick creates a commit onto the
/// current position, references whose tips were rewritten move to the
/// rewritten commits, and every resulting event is appended as the one
/// transaction named in the options. A plan without picks changes no
/// commit and moves no reference.
#[verifier::loop_isolation(false)]
#[verifier::rlimit(100)]
#[verifier::spinoff_prover]
pub fn execute_rebase_plan(
    repo: &mut Repo,
    event_log_db: &mut EventLogDb,
    plan: &RebasePlan,
    options: &ExecuteRebasePlanOptions,
) -> (exit: isize)
    requires
        old(repo).wf(),
        has_commit(old(repo).commits@, plan.first_dest_oid.num),
        forall|s: int|
            0 <= s < plan.steps@.len() ==> ((#[trigger] plan.steps@[s]) matches RebaseStep::Pick {
                commit_oid,
            } ==> has_commit(old(repo).commits@, commit_oid.num)),
        max_oid(old(repo).commits@) + plan.steps@.len() < u64::MAX - 1,
        log_wf(old(event_log_db)@),
        old(event_log_db)@.len() + 3 * plan.steps@.len() + plan.rewritten_oids@.len() + old(repo).branches@.len() + 1 < log_capacity(),
    ensures
        exit == 0,
        final(repo).wf(),
        final(repo).main_branch_name@ == old(repo).main_branch_name@,
        final(repo).commits@.len() == old(repo).commits@.len() + num_picks(plan.steps@),
        forall|i: int|
            0 <= i < old(repo).commits@.len() ==> final(repo).commits@[i] == old(repo).commits@[i],
        forall|i: int|
            old(repo).commits@.len() <= i < final(repo).commits@.len() ==> picked_into(
                old(repo).commits@,
                plan.steps@,
                #[trigger] final(repo).commits@[i],
            ),
        num_picks(plan.steps@) == 0 ==> final(repo).commits@ == old(repo).commits@
            && final(repo).branches@ == old(repo).branches@
            && final(repo).head_oid == old(repo).head_oid,
        final(event_log_db)@.len() >= old(event_log_db)@.len() + 2 * num_picks(plan.steps@)
            + plan.rewritten_oids@.len(),
        forall|i: int|
            0 <= i < old(event_log_db)@.len() ==> final(event_log_db)@[i] == old(event_log_db)@[i],
        forall|i: int|
            old(event_log_db)@.len() <= i < final(event_log_db)@.len()
                ==> (#[trigger] final(event_log_db)@[i]).tx_id() == options.event_tx_id,
        forall|i: int|
            old(event_log_db)@.len() <= i < final(event_log_db)@.len()
                ==> (#[trigger] final(event_log_db)@[i]).timestamp_of() == options.now,
        forall|q: int|
            0 <= q < num_picks(plan.steps@) ==> pick_events_ok(
                plan.steps@,
                #[trigger] final(event_log_db)@[old(event_log_db)@.len() + 2 * q],
                final(event_log_db)@[old(event_log_db)@.len() + 2 * q + 1],
            ),
        forall|q: int|
            0 <= q < plan.rewritten_oids@.len() ==> rewrite_event_ok(
                #[trigger] final(event_log_db)@[old(event_log_db)@.len() + 2 * num_picks(
                    plan.steps@,
                ) + q],
                plan.rewritten_oids@[q],
            ),
        forall|i: int|
            old(event_log_db)@.len() + 2 * num_picks(plan.steps@) + plan.rewritten_oids@.len() <= i
                < final(event_log_db)@.len() ==> (#[trigger] final(event_log_db)@[i]) matches
                Event::RefUpdateEvent { .. },
        final(event_log_db).tx_counter() == old(event_log_db).tx_counter(),
{
    let mut current: u64 = plan.first_dest_oid.num;
    let mut labels: Vec<(String, u64)> = Vec::new();
    let mut buffered: Vec<Event> = Vec::new();
    let mut moves: Vec<(u64, u64)> = Vec::new();
    let ns = plan.steps.len();
    let mut s: usize = 0;
    proof {
        assert(plan.steps@.take(0int) =~= Seq::<RebaseStep>::empty());
    }
    while s < ns
        invariant
            s <= ns,
            ns == plan.steps@.len(),
            repo.wf(),
            repo.main_branch_name@ == old(repo).main_branch_name@,
            repo.branches@ == old(repo).branches@,
            repo.head_oid == old(repo).head_oid,
            old(repo).commits@.len() <= repo.commits@.len(),
            forall|i: int|
                0 <= i < old(repo).commits@.len() ==> repo.commits@[i] == old(repo).commits@[i],
            max_oid(repo.commits@) <= max_oid(old(repo).commits@) + s,
            num_picks(plan.steps@.take(s as int)) == 0 ==> repo.commits@ == old(repo).commits@
                && moves@.len() == 0,
            has_commit(repo.commits@, current),
            forall|m: int|
                0 <= m < labels@.len() ==> has_commit(repo.commits@, (#[trigger] labels@[m]).1),
            forall|m: int|
                0 <= m < moves@.len() ==> has_commit(repo.commits@, (#[trigger] moves@[m]).1),
            moves@.len() <= s,
            moves@.len() == num_picks(plan.steps@.take(s as int)),
            repo.commits@.len() == old(repo).commits@.len() + moves@.len(),
            buffered@.len() == 2 * moves@.len(),
            forall|q: int|
                0 <= q < moves@.len() ==> pick_events_ok(
                    plan.steps@.take(s as int),
                    #[trigger] buffered@[2 * q],
                    buffered@[2 * q + 1],
                ),
            forall|i: int|
                old(repo).commits@.len() <= i < repo.commits@.len() ==> picked_into(
                    old(repo).commits@,
                    plan.steps@.take(s as int),
                    #[trigger] repo.commits@[i],
                ),
            forall|i: int|
                0 <= i < buffered@.len() ==> (#[trigger] buffered@[i]).tx_id()
                    == options.event_tx_id,
            forall|i: int|
                0 <= i < buffered@.len() ==> (#[trigger] buffered@[i]).timestamp_of()
                    == options.now,
        decreases ns - s,
    {
        let ghost commits0 = repo.commits@;
        match &plan.steps[s] {
            RebaseStep::Pick { commit_oid } => {
                proof {
                    assert(has_commit(old(repo).commits@, commit_oid.num));
                    assert(has_commit(repo.commits@, commit_oid.num)) by {
                        let w = choose|w: int|
                            0 <= w < old(repo).commits@.len() && (
                            #[trigger] old(repo).commits@[w]).oid.num == commit_oid.num;
                        assert(repo.commits@[w].oid.num == commit_oid.num);
                    }
                }
                let orig = match repo.find_commit(commit_oid.num) {
                    Some(c) => c,
                    None => {
                        proof {
                            assert(false);
                        }
                        return 2;
                    },
                };
                let time = if options.preserve_timestamps {
                    orig.committer_time
                } else {
                    options.now
                };
                let msg = orig.message.clone();
                let pid = orig.patch_id;
                let mut parents: Vec<NonZeroOid> = Vec::new();
                parents.push(NonZeroOid { num: current });
                proof {
                    assert(forall|k: int|
                        0 <= k < parents@.len() ==> has_commit(
                            repo.commits@,
                            (#[trigger] parents@[k]).num,
                        ));
                }
                let new = repo.create_commit(parents, time, msg, pid);
                proof {
                    assert(repo.commits@[repo.commits@.len() - 1].oid.num == new.num);
                    assert(has_commit(repo.commits@, new.num));
                    assert forall|x: u64| has_commit(commits0, x) implies has_commit(
                        repo.commits@,
                        x,
                    ) by {
                        let w = choose|w: int|
                            0 <= w < commits0.len() && (#[trigger] commits0[w]).oid.num == x;
                        assert(repo.commits@[w].oid.num == x);
                    }
                }
                buffered.push(
                    Event::CommitEvent {
                        timestamp: options.now,
                        event_tx_id: options.event_tx_id,
                        commit_oid: new,
                    },
                );
                buffered.push(
                    Event::RewriteEvent {
                        timestamp: options.now,
                        event_tx_id: options.event_tx_id,
                        old_commit_oid: *commit_oid,
                        new_commit_oid: new,
                    },
                );
                let ghost mv0 = moves@;
                moves.push((commit_oid.num, new.num));
                current = new.num;
                proof {
                    let base = old(repo).commits@.len() as int;
                    assert(repo.commits@.len() == base + moves@.len());
                    // the new commit carries the picked commit's patch and message
                    let w = idx_of(old(repo).commits@, commit_oid.num);
                    assert(0 <= w < old(repo).commits@.len() && old(repo).commits@[w].oid.num
                        == commit_oid.num);
                    assert(commits0[w].oid.num == commit_oid.num);
                    assert(idx_of(commits0, commit_oid.num) == w);
                    assert(commits0[w] == old(repo).commits@[w]);
                    assert(pick_feeds(
                        old(repo).commits@,
                        plan.steps@[s as int],
                        repo.commits@[repo.commits@.len() - 1],
                    ));
                    assert forall|i: int|
                        old(repo).commits@.len() <= i < repo.commits@.len() implies picked_into(
                        old(repo).commits@,
                        plan.steps@.take(s as int + 1),
                        #[trigger] repo.commits@[i],
                    ) by {
                        if i < repo.commits@.len() - 1 {
                            assert(repo.commits@[i] == commits0[i]);
                            assert(picked_into(
                                old(repo).commits@,
                                plan.steps@.take(s as int),
                                commits0[i],
                            ));
                            let s2 = choose|s2: int|
                                0 <= s2 < plan.steps@.take(s as int).len() && pick_feeds(
                                    old(repo).commits@,
                                    #[trigger] plan.steps@.take(s as int)[s2],
                                    commits0[i],
                                );
                            assert(pick_feeds(
                                old(repo).commits@,
                                plan.steps@.take(s as int + 1)[s2],
                                repo.commits@[i],
                            ));
                        } else {
                            assert(plan.steps@.take(s as int + 1)[s as int] == plan.steps@[
                                s as int
                            ]);
                            assert(pick_feeds(
                                old(repo).commits@,
                                plan.steps@.take(s as int + 1)[s as int],
                                repo.commits@[i],
                            ));
                        }
                    }
                }
            },
            RebaseStep::Label { name } => {
                labels.push((name.clone(), current));
            },
            RebaseStep::Reset { name } => {
                let nl = labels.len();
                let mut m: usize = nl;
                while m > 0
                    invariant
                        m <= nl,
                        nl == labels@.len(),
                        repo.wf(),
                        has_commit(repo.commits@, current),
                        forall|m2: int|
                            0 <= m2 < labels@.len() ==> has_commit(
                                repo.commits@,
                                (#[trigger] labels@[m2]).1,
                            ),
                    decreases m,
                {
                    if labels[m - 1].0 == *name {
                        current = labels[m - 1].1;
                        break ;
                    }
                    m -= 1;
                }
            },
            RebaseStep::CreateLabel { commit_oid, name } => {
                match repo.find_commit_index(commit_oid.num) {
                    Some(_) => {
                        labels.push((name.clone(), commit_oid.num));
                    },
                    None => {},
                }
            },
            RebaseStep::RegisterExtraPostRewriteHook => {},
        }
        proof {
            lemma_num_picks_take(plan.steps@, s as int);
            lemma_num_picks_nonneg(plan.steps@.take(s as int));
            assert forall|q: int| 0 <= q < moves@.len() implies pick_events_ok(
                plan.steps@.take(s as int + 1),
                #[trigger] buffered@[2 * q],
                buffered@[2 * q + 1],
            ) by {
                if pick_events_ok(
                    plan.steps@.take(s as int),
                    buffered@[2 * q],
                    buffered@[2 * q + 1],
                ) {
                    lemma_pick_events_extend(
                        plan.steps@,
                        s as int,
                        buffered@[2 * q],
                        buffered@[2 * q + 1],
                    );
                } else {
                    // the pair this very step appended: the pick's own rewrite
                    match buffered@[2 * q + 1] {
                        Event::RewriteEvent { old_commit_oid, .. } => {
                            assert(is_pick_of(
                                plan.steps@.take(s as int + 1)[s as int],
                                old_commit_oid.num,
                            ));
                        },
                        _ => {
                            assert(false);
                        },
                    }
                }
            }
        }
        s += 1;
    }
    proof {
        assert(plan.steps@.take(ns as int) =~= plan.steps@);
    }
    // rewrite events for duplicate commits that were skipped
    let nrw = plan.rewritten_oids.len();
    let mut q: usize = 0;
    while q < nrw
        invariant
            q <= nrw,
            nrw == plan.rewritten_oids@.len(),
            moves@.len() <= ns,
            buffered@.len() == 2 * moves@.len() + q,
            forall|q2: int|
                0 <= q2 < moves@.len() ==> pick_events_ok(
                    plan.steps@,
                    #[trigger] buffered@[2 * q2],
                    buffered@[2 * q2 + 1],
                ),
            forall|q2: int|
                0 <= q2 < q ==> rewrite_event_ok(
                    #[trigger] buffered@[2 * moves@.len() + q2],
                    plan.rewritten_oids@[q2],
                ),
            forall|i: int|
                0 <= i < buffered@.len() ==> (#[trigger] buffered@[i]).tx_id()
                    == options.event_tx_id,
            forall|i: int|
                0 <= i < buffered@.len() ==> (#[trigger] buffered@[i]).timestamp_of()
                    == options.now,
        decreases nrw - q,
    {
        let pr = &plan.rewritten_oids[q];
        buffered.push(
            Event::RewriteEvent {
                timestamp: options.now,
                event_tx_id: options.event_tx_id,
                old_commit_oid: pr.0,
                new_commit_oid: pr.1,
            },
        );
        q += 1;
    }
    // move references whose tips were rewritten
    let nb = repo.branches.len();
    let mut todo: Vec<(String, u64, u64)> = Vec::new();
    let mut b: usize = 0;
    while b < nb
        invariant
            b <= nb,
            nb == repo.branches@.len(),
            repo.wf(),
            todo@.len() <= b,
            forall|m: int|
                0 <= m < moves@.len() ==> has_commit(repo.commits@, (#[trigger] moves@[m]).1),
            forall|t: int|
                0 <= t < todo@.len() ==> has_commit(repo.commits@, (#[trigger] todo@[t]).2),
            moves@.len() == 0 ==> todo@.len() == 0,
        decreases nb - b,
    {
        let bo = repo.branches[b].oid.num;
        let nm = moves.len();
        let mut m: usize = 0;
        let mut found = false;
        while !found && m < nm
            invariant
                m <= nm,
                nm == moves@.len(),
                repo.wf(),
                todo@.len() <= b + (if found {
                    1int
                } else {
                    0int
                }),
                forall|m2: int|
                    0 <= m2 < moves@.len() ==> has_commit(repo.commits@, (#[trigger] moves@[m2]).1),
                forall|t: int|
                    0 <= t < todo@.len() ==> has_commit(repo.commits@, (#[trigger] todo@[t]).2),
                moves@.len() == 0 ==> todo@.len() == 0,
            decreases nm - m, if found {
                0int
            } else {
                1int
            },
        {
            if moves[m].0 == bo {
                todo.push((repo.branches[b].name.clone(), bo, moves[m].1));
                found = true;
            } else {
                m += 1;
            }
        }
        b += 1;
    }
    let ghost branches0 = repo.branches@;
    let ghost head0 = repo.head_oid;
    let ghost commits1 = repo.commits@;
    let nt = todo.len();
    let mut t: usize = 0;
    while t < nt
        invariant
            t <= nt,
            nt == todo@.len(),
            repo.wf(),
            repo.main_branch_name@ == old(repo).main_branch_name@,
            repo.commits@ == commits1,
            old(repo).commits@.len() <= repo.commits@.len(),
            forall|i: int|
                0 <= i < old(repo).commits@.len() ==> repo.commits@[i] == old(repo).commits@[i],
            repo.head_oid == head0,
            nt == 0 ==> repo.branches@ == branches0,
            forall|t2: int|
                0 <= t2 < todo@.len() ==> has_commit(repo.commits@, (#[trigger] todo@[t2]).2),
            forall|m2: int|
                0 <= m2 < moves@.len() ==> has_commit(repo.commits@, (#[trigger] moves@[m2]).1),
            moves@.len() <= ns,
            buffered@.len() == 2 * moves@.len() + nrw + t,
            forall|q2: int|
                0 <= q2 < moves@.len() ==> pick_events_ok(
                    plan.steps@,
                    #[trigger] buffered@[2 * q2],
                    buffered@[2 * q2 + 1],
                ),
            forall|q2: int|
                0 <= q2 < nrw ==> rewrite_event_ok(
                    #[trigger] buffered@[2 * moves@.len() + q2],
                    plan.rewritten_oids@[q2],
                ),
            forall|i: int|
                2 * moves@.len() + nrw <= i < buffered@.len() ==> (#[trigger] buffered@[i]) matches
                    Event::RefUpdateEvent { .. },
            forall|i: int|
                0 <= i < buffered@.len() ==> (#[trigger] buffered@[i]).tx_id()
                    == options.event_tx_id,
            forall|i: int|
                0 <= i < buffered@.len() ==> (#[trigger] buffered@[i]).timestamp_of()
                    == options.now,
        decreases nt - t,
    {
        let entry_name = todo[t].0.clone();
        let old_oid = todo[t].1;
        let new_oid = todo[t].2;
        repo.set_ref(&entry_name, NonZeroOid { num: new_oid });
        buffered.push(
            Event::RefUpdateEvent {
                timestamp: options.now,
                event_tx_id: options.event_tx_id,
                ref_name: entry_name,
                old_oid,
                new_oid,
                message: None,
            },
        );
        t += 1;
    }
    // move HEAD when its commit was rewritten
    let nm = moves.len();
    let mut m: usize = 0;
    let mut moved_head = false;
    let head_now = repo.head_oid;
    while m < nm
        invariant
            m <= nm,
            nm == moves@.len(),
            repo.wf(),
            repo.main_branch_name@ == old(repo).main_branch_name@,
            repo.commits@ == commits1,
            old(repo).commits@.len() <= repo.commits@.len(),
            forall|i: int|
                0 <= i < old(repo).commits@.len() ==> repo.commits@[i] == old(repo).commits@[i],
            nm == 0 ==> repo.head_oid == head0,
            nm == 0 && nt == 0 ==> repo.branches@ == branches0,
            forall|m2: int|
                0 <= m2 < moves@.len() ==> has_commit(repo.commits@, (#[trigger] moves@[m2]).1),
            moves@.len() <= ns,
            moved_head ==> m == nm,
            buffered@.len() == 2 * moves@.len() + nrw + nt + (if moved_head {
                1int
            } else {
                0int
            }),
            forall|q2: int|
                0 <= q2 < moves@.len() ==> pick_events_ok(
                    plan.steps@,
                    #[trigger] buffered@[2 * q2],
                    buffered@[2 * q2 + 1],
                ),
            forall|q2: int|
                0 <= q2 < nrw ==> rewrite_event_ok(
                    #[trigger] buffered@[2 * moves@.len() + q2],
                    plan.rewritten_oids@[q2],
                ),
            forall|i: int|
                2 * moves@.len() + nrw <= i < buffered@.len() ==> (#[trigger] buffered@[i]) matches
                    Event::RefUpdateEvent { .. },
            forall|i: int|
                0 <= i < buffered@.len() ==> (#[trigger] buffered@[i]).tx_id()
                    == options.event_tx_id,
            forall|i: int|
                0 <= i < buffered@.len() ==> (#[trigger] buffered@[i]).timestamp_of()
                    == options.now,
        decreases nm - m,
    {
        if moves[m].0 == head_now && head_now != 0 {
            let new_oid = moves[m].1;
            repo.set_head(new_oid);
            buffered.push(
                Event::RefUpdateEvent {
                    timestamp: options.now,
                    event_tx_id: options.event_tx_id,
                    ref_name: String::from_str("HEAD"),
                    old_oid: head_now,
                    new_oid,
                    message: None,
                },
            );
            proof {
                assert(nm > 0);
            }
            moved_head = true;
            m = nm;
        } else {
            m += 1;
        }
    }
    let ghost bufseq = buffered@;
    let ghost oldlen = old(event_log_db)@.len() as int;
    let ghost np = moves@.len() as int;
    event_log_db.add_events(buffered);
    proof {
        assert(np == num_picks(plan.steps@));
        assert(event_log_db@ == old(event_log_db)@ + bufseq);
        assert forall|q2: int| 0 <= q2 < num_picks(plan.steps@) implies pick_events_ok(
            plan.steps@,
            #[trigger] event_log_db@[oldlen + 2 * q2],
            event_log_db@[oldlen + 2 * q2 + 1],
        ) by {
            assert(event_log_db@[oldlen + 2 * q2] == bufseq[2 * q2]);
            assert(event_log_db@[oldlen + 2 * q2 + 1] == bufseq[2 * q2 + 1]);
        }
        assert forall|q2: int| 0 <= q2 < plan.rewritten_oids@.len() implies rewrite_event_ok(
            #[trigger] event_log_db@[oldlen + 2 * num_picks(plan.steps@) + q2],
            plan.rewritten_oids@[q2],
        ) by {
            assert(event_log_db@[oldlen + 2 * np + q2] == bufseq[2 * np + q2]);
        }
        assert forall|i: int|
            oldlen + 2 * num_picks(plan.steps@) + plan.rewritten_oids@.len() <= i
                < event_log_db@.len() implies (#[trigger] event_log_db@[i]) matches
            Event::RefUpdateEvent { .. } by {
            assert(event_log_db@[i] == bufseq[i - oldlen]);
        }
    }
    0
}

/// A sequence holding a pick counts at least one.
pub proof fn lemma_has_pick_positive(steps: Seq<RebaseStep>, o: u64)
    requires
        has_pick(steps, o),
    ensures
        num_picks(steps) >= 1,
    decreases steps.len(),
{
    if (steps.last() matches RebaseStep::Pick { .. }) {
        lemma_num_picks_nonneg(steps.drop_last());
    } else {
        let w = choose|w: int| 0 <= w < steps.len() && is_pick_of(#[trigger] steps[w], o);
        assert(w < steps.len() - 1);
        assert(is_pick_of(steps.drop_last()[w], o));
        lemma_has_pick_positive(steps.drop_last(), o);
    }
}

/// A step sequence without picks counts zero picks.
proof fn lemma_num_picks_zero(steps: Seq<RebaseStep>)
    requires
        forall|s: int|
            0 <= s < steps.len() ==> !((#[trigger] steps[s]) matches RebaseStep::Pick { .. }),
    ensures
        num_picks(steps) == 0,
    decreases steps.len(),
{
    if steps.len() > 0 {
        assert(steps[steps.len() - 1] == steps.last());
        assert(forall|s: int|
            0 <= s < steps.len() - 1 ==> steps.drop_last()[s] == #[trigger] steps[s]);
        lemma_num_picks_zero(steps.drop_last());
    }
}

/// A thin builder over the planning inputs, mirroring how callers pass the
/// intent "move this subtree there" before asking for the plan.
pub struct RebasePlanBuilder {
    /// The recorded intent: move the subtree at the first commit onto the
    /// second.
    pub source_dest: Option<(NonZeroOid, NonZeroOid)>,
}

impl RebasePlanBuilder {
    /// A builder with no intent recorded yet.
    pub fn new() -> (r: RebasePlanBuilder)
        ensures
            r.source_dest is None,
    {
        RebasePlanBuilder { source_dest: None }
    }

    /// Record the intent to move the subtree rooted at `source` onto
    /// `dest`.
    pub fn move_subtree(&mut self, source_oid: NonZeroOid, dest_oid: NonZeroOid)
        ensures
            final(self).source_dest == Some((source_oid, dest_oid)),
    {
        self.source_dest = Some((source_oid, dest_oid));
    }

    /// Build the plan for the recorded intent.
    pub fn build(
        &self,
        repo: &Repo,
        graph: &CommitGraph,
        options: &BuildRebasePlanOptions,
    ) -> (r: Result<Option<RebasePlan>, BuildRebasePlanError>)
        requires
            repo.wf(),
            graph_wf(*repo, graph.nodes@),
            self.source_dest is Some,
        ensures
            ({
                let source_oid = (self.source_dest->0).0;
                let dest_oid = (self.source_dest->0).1;
                match r {
                    Result::Err(e) => match e {
                        BuildRebasePlanError::CommitNotFound { oid } => (!graph_has(
                            graph.nodes@,
                            source_oid.num,
                        ) && oid == source_oid) || (graph_has(graph.nodes@, source_oid.num)
                            && !graph_has(graph.nodes@, dest_oid.num) && oid == dest_oid),
                        BuildRebasePlanError::SubtreeIncludesDest { dest_oid: d } => graph_has(
                            graph.nodes@,
                            source_oid.num,
                        ) && graph_has(graph.nodes@, dest_oid.num) && in_subtree(
                            graph.nodes@,
                            source_oid.num,
                            node_idx_of(graph.nodes@, dest_oid.num),
                        ) && d == dest_oid,
                        _ => false,
                    },
                    Result::Ok(None) => graph_has(graph.nodes@, source_oid.num) && graph_has(
                        graph.nodes@,
                        dest_oid.num,
                    ) && !in_subtree(
                        graph.nodes@,
                        source_oid.num,
                        node_idx_of(graph.nodes@, dest_oid.num),
                    ) && crate::graph::node_of(graph.nodes@, source_oid.num).parent == Some(
                        dest_oid,
                    ),
                    Result::Ok(Some(plan)) => graph_has(graph.nodes@, source_oid.num)
                        && graph_has(graph.nodes@, dest_oid.num) && !in_subtree(
                        graph.nodes@,
                        source_oid.num,
                        node_idx_of(graph.nodes@, dest_oid.num),
                    ) && crate::graph::node_of(graph.nodes@, source_oid.num).parent != Some(
                        dest_oid,
                    ) && plan_ok(
                        *repo,
                        graph.nodes@,
                        source_oid,
                        dest_oid,
                        options.detect_duplicate_commits_via_patch_id,
                        plan,
                    ),
                }
            }),
    {
        let (source_oid, dest_oid) = match &self.source_dest {
            Some(p) => (p.0, p.1),
            None => {
                proof {
                    assert(false);
                }
                (NonZeroOid { num: 1 }, NonZeroOid { num: 1 })
            },
        };
        build_rebase_plan(repo, graph, source_oid, dest_oid, options)
    }
}

/// Where the walk to the root of a stack ends, starting at the node at
/// position `k`: stop at a main node or a root; stop before a parent that
/// is a main node or the given merge base; otherwise continue at the
/// parent.
pub open spec fn base_commit_spec(nodes: Seq<Node>, merge_base_oid: Option<u64>, k: int) -> u64
    decreases k,
{
    if !(0 <= k < nodes.len()) {
        0
    } else if nodes[k].is_main {
        nodes[k].commit_oid.num
    } else {
        match nodes[k].parent {
            Some(p) => {
                let j = node_idx_of(nodes, p.num);
                if 0 <= j < k {
                    if nodes[j].is_main || merge_base_oid == Some(p.num) {
                        nodes[k].commit_oid.num
                    } else {
                        base_commit_spec(nodes, merge_base_oid, j)
                    }
                } else {
                    nodes[k].commit_oid.num
                }
            },
            None => nodes[k].commit_oid.num,
        }
    }
}

/// Walk up from a commit to the root of its stack: the last ancestor below
/// the main branch (and above the merge base, when one is given).
#[verifier::loop_isolation(false)]
pub fn resolve_base_commit(
    repo: &Repo,
    graph: &CommitGraph,
    merge_base_oid: Option<u64>,
    oid: NonZeroOid,
) -> (r: NonZeroOid)
    requires
        repo.wf(),
        graph_wf(*repo, graph.nodes@),
        graph_has(graph.nodes@, oid.num),
    ensures
        graph_has(graph.nodes@, r.num),
        r.num == base_commit_spec(
            graph.nodes@,
            merge_base_oid,
            node_idx_of(graph.nodes@, oid.num),
        ),
{
    let mut cur: usize = match graph.find_node_index(oid.num) {
        Some(k) => k,
        None => {
            proof {
                assert(false);
            }
            0
        },
    };
    proof {
        crate::graph::lemma_graph_unique(
            *repo,
            graph.nodes@,
            cur as int,
            node_idx_of(graph.nodes@, oid.num),
        );
    }
    loop
        invariant
            cur < graph.nodes@.len(),
            base_commit_spec(graph.nodes@, merge_base_oid, cur as int) == base_commit_spec(
                graph.nodes@,
                merge_base_oid,
                node_idx_of(graph.nodes@, oid.num),
            ),
        decreases cur,
    {
        let nd = &graph.nodes[cur];
        if nd.is_main {
            return nd.commit_oid;
        }
        match &nd.parent {
            Some(p) => {
                proof {
                    crate::graph::lemma_parent_node_before(*repo, graph.nodes@, cur as int);
                }
                let pj = match graph.find_node_index(p.num) {
                    Some(j) => j,
                    None => {
                        proof {
                            assert(graph_has(graph.nodes@, p.num));
                            assert(false);
                        }
                        0
                    },
                };
                proof {
                    crate::graph::lemma_graph_unique(
                        *repo,
                        graph.nodes@,
                        pj as int,
                        node_idx_of(graph.nodes@, p.num),
                    );
                }
                let stop = graph.nodes[pj].is_main || (match merge_base_oid {
                    Some(m) => p.num == m,
                    None => false,
                });
                if stop {
                    let nd2 = &graph.nodes[cur];
                    proof {
                        assert(base_commit_spec(graph.nodes@, merge_base_oid, cur as int)
                            == graph.nodes@[cur as int].commit_oid.num);
                    }
                    return nd2.commit_oid;
                }
                proof {
                    assert(base_commit_spec(graph.nodes@, merge_base_oid, cur as int)
                        == base_commit_spec(graph.nodes@, merge_base_oid, pj as int));
                }
                cur = pj;
            },
            None => {
                return nd.commit_oid;
            },
        }
    }
}

/// The hash text the move command resolves its source (or base) from: the
/// given source, else the given base, else HEAD.
pub open spec fn move_source_text(source: Option<String>, base: Option<String>, head: u64) -> Seq<
    char,
> {
    match source {
        Some(s) => s@,
        None => match base {
            Some(b) => b@,
            None => hex_text(head),
        },
    }
}

/// The hash text the move command resolves its destination from: the given
/// destination, else HEAD.
pub open spec fn move_dest_text(dest: Option<String>, head: u64) -> Seq<char> {
    match dest {
        Some(d) => d@,
        None => hex_text(head),
    }
}

/// Move a subtree from one place to another: resolve the source (or walk
/// to the base of its stack), the destination, and the plan; then apply
/// the plan, or report that there is nothing to do, or describe why no
/// plan exists.
#[verifier::loop_isolation(false)]
#[verifier::rlimit(100)]
#[verifier::spinoff_prover]
pub fn move_commits(
    repo: &mut Repo,
    event_log_db: &mut EventLogDb,
    merge_base_db: &mut MergeBaseDb,
    config: &crate::config::Config,
    now: u64,
    source: Option<String>,
    dest: Option<String>,
    base: Option<String>,
    force_in_memory: bool,
    force_on_disk: bool,
    dump_rebase_constraints: bool,
    dump_rebase_plan: bool,
    output: &mut Vec<String>,
) -> (exit: isize)
    requires
        old(repo).wf(),
        log_wf(old(event_log_db)@),
        old(event_log_db)@.len() + 11 * old(repo).commits@.len() + old(repo).branches@.len() + 8
            < log_capacity(),
        old(event_log_db).tx_counter() < u64::MAX,
        max_oid(old(repo).commits@) + 3 * old(repo).commits@.len() + 1 < u64::MAX - 1,
        old(merge_base_db).wf(*old(repo)),
    ensures
        exit == 0 || exit == 1,
        final(repo).wf(),
        final(repo).main_branch_name@ == old(repo).main_branch_name@,
        old(repo).commits@.len() <= final(repo).commits@.len(),
        forall|i: int|
            0 <= i < old(repo).commits@.len() ==> final(repo).commits@[i] == old(repo).commits@[i],
        final(event_log_db)@.len() >= old(event_log_db)@.len(),
        forall|i: int|
            0 <= i < old(event_log_db)@.len() ==> final(event_log_db)@[i] == old(event_log_db)@[i],
        forall|i: int|
            old(event_log_db)@.len() <= i < final(event_log_db)@.len()
                ==> (#[trigger] final(event_log_db)@[i]).tx_id() == old(event_log_db).tx_counter()
                + 1,
        exit == 1 ==> final(event_log_db)@ == old(event_log_db)@ && final(repo).commits@ == old(repo).commits@,
        final(output)@.len() >= old(output)@.len(),
        forall|i: int| 0 <= i < old(output)@.len() ==> final(output)@[i] == old(output)@[i],
        exit == 1 ==> final(output)@.len() > old(output)@.len(),
        (source is Some && base is Some) ==> exit == 1 && final(output)@.last()@
            == "The --source and --base options cannot both be provided."@,
        (!(source is Some && base is Some) && source is None && base is None && old(repo).head_oid == 0) ==> exit == 1 && final(output)@.last()@
            == "No --source or --base argument was provided, and no OID for HEAD is available as a default"@,
        (!(source is Some && base is Some) && !(source is None && base is None && old(repo).head_oid == 0) && dest is None && old(repo).head_oid == 0) ==> exit == 1 && final(output)@.last()@ == "No --dest argument was provided, and no OID for HEAD is available as a default"@,
        (!(source is Some && base is Some) && !(source is None && base is None && old(repo).head_oid == 0) && !(dest is None && old(repo).head_oid == 0) && !hash_resolves(
            old(repo).commits@,
            move_source_text(source, base, old(repo).head_oid),
        )) ==> exit == 1 && final(output)@.last()@ == "Commit not found: "@ + move_source_text(
            source,
            base,
            old(repo).head_oid,
        ),
        (!(source is Some && base is Some) && !(source is None && base is None && old(repo).head_oid == 0) && !(dest is None && old(repo).head_oid == 0) && hash_resolves(
            old(repo).commits@,
            move_source_text(source, base, old(repo).head_oid),
        ) && !hash_resolves(
            old(repo).commits@,
            move_dest_text(dest, old(repo).head_oid),
        )) ==> exit == 1 && final(output)@.last()@ == "Commit not found: "@ + move_dest_text(
            dest,
            old(repo).head_oid,
        ),
        exit == 1 ==> (source is Some && base is Some) || (source is None && base is None && old(repo).head_oid == 0) || (dest is None && old(repo).head_oid == 0) || !hash_resolves(
            old(repo).commits@,
            move_source_text(source, base, old(repo).head_oid),
        ) || !hash_resolves(
            old(repo).commits@,
            move_dest_text(dest, old(repo).head_oid),
        ) || final(output)@.len() == old(output)@.len() + 1,
        exit == 1 ==> final(repo).branches@ == old(repo).branches@ && final(repo).head_oid
            == old(repo).head_oid,
        exit == 0 ==> (final(event_log_db)@ == old(event_log_db)@ && final(repo).commits@ == old(repo).commits@ && final(repo).branches@ == old(repo).branches@ && final(repo).head_oid == old(repo).head_oid && final(output)@.len() > old(output)@.len() && final(output)@.last()@
            == "Nothing to do."@) || final(event_log_db)@.len() > old(event_log_db)@.len(),
        (exit == 0 && final(event_log_db)@ == old(event_log_db)@) ==> exists|g: Seq<Node>|
            {
                &&& #[trigger] crate::graph::graph_for(
                    *old(repo),
                    old(event_log_db)@,
                    old(event_log_db)@.len() as int,
                    crate::hiding::resolved_num(
                        old(repo).commits@,
                        move_source_text(source, base, old(repo).head_oid),
                    ),
                    old(repo).branch_nums(),
                    g,
                )
                &&& ({
                    let src0 = crate::hiding::resolved_num(
                        old(repo).commits@,
                        move_source_text(source, base, old(repo).head_oid),
                    );
                    let dst0 = crate::hiding::resolved_num(
                        old(repo).commits@,
                        move_dest_text(dest, old(repo).head_oid),
                    );
                    let mbo = crate::mergebase::merge_base_spec(old(repo).commits@, src0, dst0);
                    let src2 = if source is None {
                        base_commit_spec(g, mbo, node_idx_of(g, src0))
                    } else {
                        src0
                    };
                    &&& graph_has(g, src0)
                    &&& graph_has(g, src2)
                    &&& graph_has(g, dst0)
                    &&& crate::graph::node_of(g, src2).parent == Some(NonZeroOid { num: dst0 })
                })
            },
        (exit == 0 && final(event_log_db)@.len() > old(event_log_db)@.len()) ==> exists|
            g: Seq<Node>,
            plan: RebasePlan,
        |
            {
                &&& #[trigger] crate::graph::graph_for(
                    *old(repo),
                    old(event_log_db)@,
                    old(event_log_db)@.len() as int,
                    crate::hiding::resolved_num(
                        old(repo).commits@,
                        move_source_text(source, base, old(repo).head_oid),
                    ),
                    old(repo).branch_nums(),
                    g,
                )
                &&& #[trigger] exec_post(
                    *old(repo),
                    *final(repo),
                    old(event_log_db)@,
                    final(event_log_db)@,
                    plan,
                    (old(event_log_db).tx_counter() + 1) as u64,
                    now,
                )
                &&& ({
                    let src0 = crate::hiding::resolved_num(
                        old(repo).commits@,
                        move_source_text(source, base, old(repo).head_oid),
                    );
                    let dst0 = crate::hiding::resolved_num(
                        old(repo).commits@,
                        move_dest_text(dest, old(repo).head_oid),
                    );
                    let mbo = crate::mergebase::merge_base_spec(old(repo).commits@, src0, dst0);
                    let src2 = if source is None {
                        base_commit_spec(g, mbo, node_idx_of(g, src0))
                    } else {
                        src0
                    };
                    &&& graph_has(g, src0)
                    &&& graph_has(g, src2)
                    &&& graph_has(g, dst0)
                    &&& crate::graph::node_of(g, src2).parent != Some(NonZeroOid { num: dst0 })
                    &&& plan_ok(
                        *old(repo),
                        g,
                        NonZeroOid { num: src2 },
                        NonZeroOid { num: dst0 },
                        true,
                        plan,
                    )
                })
            },
{
    let head = repo.get_head_info();
    // pick the source (or base) and the destination
    let both = match (&source, &base) {
        (Some(_), Some(_)) => true,
        _ => false,
    };
    if both {
        output.push(
            String::from_str("The --source and --base options cannot both be provided."),
        );
        return 1;
    }
    let mut should_resolve_base = false;
    let source_text: String = match source {
        Some(s) => s,
        None => match base {
            Some(b) => {
                should_resolve_base = true;
                b
            },
            None => match &head {
                Some(h) => {
                    should_resolve_base = true;
                    h.to_text()
                },
                None => {
                    output.push(
                        String::from_str(
                            "No --source or --base argument was provided, and no OID for HEAD is available as a default",
                        ),
                    );
                    return 1;
                },
            },
        },
    };
    let dest_text: String = match dest {
        Some(d) => d,
        None => match &head {
            Some(h) => h.to_text(),
            None => {
                output.push(
                    String::from_str(
                        "No --dest argument was provided, and no OID for HEAD is available as a default",
                    ),
                );
                return 1;
            },
        },
    };
    let mut hashes: Vec<String> = Vec::new();
    hashes.push(source_text);
    hashes.push(dest_text);
    let resolved = match crate::graph::resolve_commits(repo, &hashes) {
        crate::graph::ResolveCommitsResult::Found { commits } => commits,
        crate::graph::ResolveCommitsResult::CommitNotFound { commit } => {
            proof {
                let st = move_source_text(source, base, old(repo).head_oid);
                let dt = move_dest_text(dest, old(repo).head_oid);
                assert(hashes@[0]@ == st);
                assert(hashes@[1]@ == dt);
                let j = choose|j: int|
                    0 <= j < hashes@.len() && (#[trigger] hashes@[j]@) == commit@
                        && !hash_resolves(repo.commits@, hashes@[j]@) && (forall|j2: int|
                        0 <= j2 < j ==> hash_resolves(repo.commits@, hashes@[j2]@));
                if j == 0 {
                    assert(commit@ == st);
                    assert(!hash_resolves(repo.commits@, st));
                } else {
                    assert(j == 1);
                    assert(commit@ == dt);
                    assert(hash_resolves(repo.commits@, hashes@[0]@));
                    assert(!hash_resolves(repo.commits@, dt));
                }
            }
            let mut line = String::from_str("Commit not found: ");
            line.append(commit.as_str());
            output.push(line);
            return 1;
        },
    };
    let mut source_oid = resolved[0];
    let dest_oid = resolved[1];
    proof {
        let st = move_source_text(source, base, old(repo).head_oid);
        let dt = move_dest_text(dest, old(repo).head_oid);
        assert(hashes@[0]@ == st);
        assert(hashes@[1]@ == dt);
        assert(hex_text(resolved@[0].num) == st);
        assert(hex_text(resolved@[1].num) == dt);
        assert(source_oid.num == crate::hiding::resolved_num(old(repo).commits@, st)) by {
            let i = choose|i: int|
                0 <= i < old(repo).commits@.len() && hex_text(
                    (#[trigger] old(repo).commits@[i]).oid.num,
                ) == st;
            crate::oid::lemma_hex_text_injective(source_oid.num, old(repo).commits@[i].oid.num);
        }
        assert(dest_oid.num == crate::hiding::resolved_num(old(repo).commits@, dt)) by {
            let i = choose|i: int|
                0 <= i < old(repo).commits@.len() && hex_text(
                    (#[trigger] old(repo).commits@[i]).oid.num,
                ) == dt;
            crate::oid::lemma_hex_text_injective(dest_oid.num, old(repo).commits@[i].oid.num);
        }
    }
    let ghost src0: u64 = source_oid.num;
    // build the graph around the source
    let event_replayer = EventReplayer::from_event_log_db(event_log_db);
    let event_cursor = event_replayer.make_default_cursor();
    let main = repo.get_main_branch_oid();
    let branches = repo.branch_oids();
    proof {
        assert forall|k: int| 0 <= k < branches@.len() implies has_commit(
            repo.commits@,
            #[trigger] branches@[k],
        ) by {
            assert(branches@[k] == repo.branches@.map_values(
                |b: crate::repo::RefEntry| b.oid.num,
            )[k]);
            assert(branches@[k] == repo.branches@[k].oid.num);
        }
    }
    let graph = crate::graph::make_graph(
        repo,
        merge_base_db,
        &event_replayer,
        event_cursor,
        &crate::graph::HeadOid(Some(source_oid)),
        &crate::graph::MainBranchOid(main),
        &crate::graph::BranchOids(branches),
        true,
    );
    proof {
        assert(*repo == *old(repo));
        assert(event_replayer.events() == old(event_log_db)@);
        assert(event_cursor.event_id - 1 == old(event_log_db)@.len() as int);
        assert(crate::graph::graph_for(
            *old(repo),
            old(event_log_db)@,
            old(event_log_db)@.len() as int,
            src0,
            old(repo).branch_nums(),
            graph.nodes@,
        ));
        assert(crate::graph::graph_for(
            *old(repo),
            old(event_log_db)@,
            old(event_log_db)@.len() as int,
            crate::hiding::resolved_num(
                old(repo).commits@,
                move_source_text(source, base, old(repo).head_oid),
            ),
            old(repo).branch_nums(),
            graph.nodes@,
        ));
    }
    let ghost mbo: Option<u64> = None;
    if should_resolve_base {
        let mb = merge_base_db.get_merge_base_oid(repo, source_oid.num, dest_oid.num);
        proof {
            mbo = mb;
            assert(mbo == crate::mergebase::merge_base_spec(
                old(repo).commits@,
                src0,
                dest_oid.num,
            ));
        }
        match graph.find_node_index(source_oid.num) {
            Some(_) => {
                proof {
                    assert(graph_has(graph.nodes@, source_oid.num));
                }
                source_oid = resolve_base_commit(repo, &graph, mb, source_oid);
                proof {
                    assert(source_oid.num == base_commit_spec(
                        graph.nodes@,
                        mbo,
                        node_idx_of(graph.nodes@, src0),
                    ));
                }
            },
            None => {},
        }
    }
    let event_tx_id = event_log_db.make_transaction_id(now, "move");
    let mut builder = RebasePlanBuilder::new();
    builder.move_subtree(source_oid, dest_oid);
    let plan_result = builder.build(
        repo,
        &graph,
        &BuildRebasePlanOptions {
            dump_rebase_constraints,
            dump_rebase_plan,
            detect_duplicate_commits_via_patch_id: true,
        },
    );
    match plan_result {
        Result::Ok(None) => {
            proof {
                let g = graph.nodes@;
                let dst0 = dest_oid.num;
                let src2 = if source is None {
                    base_commit_spec(g, mbo, node_idx_of(g, src0))
                } else {
                    src0
                };
                assert(should_resolve_base == (source is None));
                assert(builder.source_dest == Some((source_oid, dest_oid)));
                assert(graph_has(g, source_oid.num));
                assert(crate::graph::node_of(g, source_oid.num).parent == Some(dest_oid));
                assert(graph_has(g, src0));
                assert(source_oid.num == src2);
                assert(dest_oid == NonZeroOid { num: dst0 });
                assert(crate::graph::node_of(g, src2).parent == Some(NonZeroOid { num: dst0 }));
                assert(graph_has(g, src0));
                assert(graph_has(g, src2));
                assert(graph_has(g, dst0));
                assert(event_log_db@ == old(event_log_db)@);
            }
            output.push(String::from_str("Nothing to do."));
            0
        },
        Result::Ok(Some(plan)) => {
            proof {
                crate::graph::lemma_graph_size(*repo, graph.nodes@);
                assert forall|s: int|
                    0 <= s < plan.steps@.len() implies ((#[trigger] plan.steps@[s]) matches
                RebaseStep::Pick { commit_oid } ==> has_commit(repo.commits@, commit_oid.num)) by {}
            }
            let preserve_timestamps = match crate::config::get_restack_preserve_timestamps(
                config,
            ) {
                Result::Ok(b) => b,
                Result::Err(e) => {
                    output.push(e.describe());
                    return 1;
                },
            };
            let options = ExecuteRebasePlanOptions {
                now,
                event_tx_id,
                preserve_timestamps,
                force_in_memory,
                force_on_disk,
            };
            let exit = execute_rebase_plan(repo, event_log_db, &plan, &options);
            proof {
                lemma_num_picks_nonneg(plan.steps@);
                // the subtree holds at least its root, so the plan picked or
                // recorded something and the log grew
                let nodes = graph.nodes@;
                assert(graph_has(nodes, source_oid.num));
                let k = node_idx_of(nodes, source_oid.num);
                assert(0 <= k < nodes.len() && nodes[k].commit_oid.num == source_oid.num);
                assert(in_subtree(nodes, source_oid.num, k)) by {
                    reveal(in_subtree);
                }
                if dup_in_dest(
                    old(repo).commits@,
                    dest_oid.num,
                    patch_of(old(repo).commits@, nodes[k].commit_oid.num),
                ) {
                    assert(has_rewrite(plan.rewritten_oids@, nodes[k].commit_oid.num));
                    let w = choose|w: int|
                        0 <= w < plan.rewritten_oids@.len() && (
                        #[trigger] plan.rewritten_oids@[w]).0.num == nodes[k].commit_oid.num;
                    assert(plan.rewritten_oids@.len() >= 1);
                } else {
                    assert(has_pick(plan.steps@, nodes[k].commit_oid.num));
                    lemma_has_pick_positive(plan.steps@, nodes[k].commit_oid.num);
                }
                let g = graph.nodes@;
                let dst0 = dest_oid.num;
                let src2 = if source is None {
                    base_commit_spec(g, mbo, node_idx_of(g, src0))
                } else {
                    src0
                };
                assert(source_oid.num == src2);
                assert(dest_oid == NonZeroOid { num: dst0 });
                assert(source_oid == NonZeroOid { num: src2 });
                assert(graph_has(g, source_oid.num));
                assert(graph_has(g, src0));
                assert(graph_has(g, src2));
                assert(graph_has(g, dst0));
                assert(plan_ok(
                    *old(repo),
                    g,
                    NonZeroOid { num: src2 },
                    NonZeroOid { num: dst0 },
                    true,
                    plan,
                ));
                assert(crate::graph::node_of(g, src2).parent != Some(NonZeroOid { num: dst0 }));
                assert(exec_post(
                    *old(repo),
                    *repo,
                    old(event_log_db)@,
                    event_log_db@,
                    plan,
                    (old(event_log_db).tx_counter() + 1) as u64,
                    now,
                ));
            }
            exit
        },
        Result::Err(err) => {
            output.push(err.describe());
            1
        },
    }
}

} // verus!
