//! The commit graph builder.
//!
//! From the replayer's visibility state, HEAD, the main branch tip, and the
//! branch tips, build the minimal visible DAG that all user-facing commands
//! operate over: seed commits, walk first-parent ancestors to their merge
//! base with the main branch, add the main branch segment, mark visibility,
//! invert parent edges into ordered children lists, and drop hidden commits
//! that no visible commit descends from.

use vstd::prelude::*;
use crate::eventlog::{
    CommitVisibility, EventCursor, EventReplayer, log_wf, oid_list_contains, vis_prefix, Event,
};
use crate::mergebase::MergeBaseDb;
use crate::mergebase::commit_chain;
use crate::oid::NonZeroOid;
use crate::repo::{has_commit, idx_of, Repo};

verus! {

/// The commit HEAD points at, if any.
pub struct HeadOid(pub Option<NonZeroOid>);

/// The tip of the main branch.
pub struct MainBranchOid(pub NonZeroOid);

/// The tips of all branches.
pub struct BranchOids(pub Vec<u64>);

/// One node of the commit graph.
#[derive(Debug)]
pub struct Node {
    /// The commit this node stands for.
    pub commit_oid: NonZeroOid,
    /// The first parent, when it is itself in the graph.
    pub parent: Option<NonZeroOid>,
    /// The children in the graph, ordered by committer timestamp ascending,
    /// ties broken by id.
    pub children: Vec<NonZeroOid>,
    /// Whether the node lies on the main branch segment.
    pub is_main: bool,
    /// Whether the user is still working on the commit.
    pub is_visible: bool,
}

/// The graph: nodes keyed by commit id, ordered by position in the commit
/// table (so every child stands after its parent).
pub struct CommitGraph {
    pub nodes: Vec<Node>,
}

/// Whether the graph holds a node for the commit.
pub open spec fn graph_has(nodes: Seq<Node>, oid: u64) -> bool {
    exists|k: int| 0 <= k < nodes.len() && nodes[k].commit_oid.num == oid
}

/// The position of the commit's node (meaningful when present, since the
/// graph holds one node per commit).
pub open spec fn node_idx_of(nodes: Seq<Node>, oid: u64) -> int {
    choose|k: int| 0 <= k < nodes.len() && nodes[k].commit_oid.num == oid
}

/// The head id as a plain value, zero when HEAD is unborn.
pub open spec fn head_num_of(head: HeadOid) -> u64 {
    match head.0 {
        Some(h) => h.num,
        None => 0,
    }
}

/// The visibility policy for a graph node: main-branch nodes always show;
/// otherwise the replayer decides, and a commit the log never touched shows
/// exactly when it is HEAD or a branch tip.
pub open spec fn visible_at(
    events: Seq<Event>,
    n: int,
    oid: u64,
    head: u64,
    branch_oids: Seq<u64>,
    is_main: bool,
) -> bool {
    ||| is_main
    ||| vis_prefix(events, n, oid) == Some(CommitVisibility::Visible)
    ||| (vis_prefix(events, n, oid) is None && (oid == head || branch_oids.contains(oid)))
}

/// What `make_graph` guarantees of the graph it builds over a repository,
/// a log prefix, HEAD and the branch tips: structural well-formedness,
/// each node's visibility per the policy, children sorted and complete
/// (every parent edge is mirrored in the parent's child list), and a node
/// for every commit the replayer shows as visible. Public contracts that
/// speak of an internally built graph quantify over a graph with these
/// properties.
pub open spec fn graph_for(
    repo: Repo,
    events: Seq<Event>,
    n: int,
    head: u64,
    branch_oids: Seq<u64>,
    nodes: Seq<Node>,
) -> bool {
    &&& graph_wf(repo, nodes)
    &&& forall|k: int|
        0 <= k < nodes.len() ==> (#[trigger] nodes[k]).is_visible == visible_at(
            events,
            n,
            nodes[k].commit_oid.num,
            head,
            branch_oids,
            nodes[k].is_main,
        )
    &&& forall|k: int, a: int, b: int|
        0 <= k < nodes.len() && 0 <= a < b < nodes[k].children@.len() ==> child_le(
            repo,
            #[trigger] nodes[k].children@[a],
            #[trigger] nodes[k].children@[b],
        )
    &&& forall|k: int|
        0 <= k < nodes.len() && (#[trigger] nodes[k]).parent is Some ==> nodes[node_idx_of(
            nodes,
            nodes[k].parent->0.num,
        )].children@.contains(nodes[k].commit_oid)
    &&& forall|o: u64|
        has_commit(repo.commits@, o) && #[trigger] vis_prefix(events, n, o) == Some(
            CommitVisibility::Visible,
        ) ==> graph_has(nodes, o)
}

/// The child ordering: committer timestamp ascending, ties broken by id.
pub open spec fn child_le(repo: Repo, a: NonZeroOid, b: NonZeroOid) -> bool {
    let ta = repo.commits@[idx_of(repo.commits@, a.num)].committer_time;
    let tb = repo.commits@[idx_of(repo.commits@, b.num)].committer_time;
    ta < tb || (ta == tb && a.num <= b.num)
}

/// Structural well-formedness of a graph over a repository: every node
/// stands for a commit of the table, nodes follow the table's order (hence
/// one node per commit), parent edges point at the commit's first parent and
/// only within the graph, and every child edge is mirrored by the child's
/// parent edge.
pub open spec fn graph_wf(repo: Repo, nodes: Seq<Node>) -> bool {
    &&& forall|k: int|
        0 <= k < nodes.len() ==> has_commit(repo.commits@, (#[trigger] nodes[k]).commit_oid.num)
    &&& forall|k1: int, k2: int|
        0 <= k1 < k2 < nodes.len() ==> idx_of(
            repo.commits@,
            (#[trigger] nodes[k1]).commit_oid.num,
        ) < idx_of(repo.commits@, (#[trigger] nodes[k2]).commit_oid.num)
    &&& forall|k: int|
        0 <= k < nodes.len() && (#[trigger] nodes[k]).parent is Some ==> {
            let p = nodes[k].parent->0;
            let c = repo.commits@[idx_of(repo.commits@, nodes[k].commit_oid.num)];
            &&& graph_has(nodes, p.num)
            &&& c.parents@.len() > 0
            &&& c.parents@[0] == p
        }
    &&& forall|k: int, c: int|
        0 <= k < nodes.len() && 0 <= c < nodes[k].children@.len() ==> {
            let ch = #[trigger] nodes[k].children@[c];
            &&& graph_has(nodes, ch.num)
            &&& nodes[node_idx_of(nodes, ch.num)].parent == Some(nodes[k].commit_oid)
        }
}

impl CommitGraph {
    /// The number of nodes.
    pub fn len(&self) -> (n: usize)
        ensures
            n == self.nodes@.len(),
    {
        self.nodes.len()
    }

    /// Find the position of a commit's node.
    pub fn find_node_index(&self, oid: u64) -> (r: Option<usize>)
        ensures
            match r {
                Some(k) => k < self.nodes@.len() && self.nodes@[k as int].commit_oid.num == oid,
                None => !graph_has(self.nodes@, oid),
            },
    {
        let n = self.nodes.len();
        let mut k: usize = 0;
        while k < n
            invariant
                k <= n,
                n == self.nodes@.len(),
                forall|j: int| 0 <= j < k ==> (#[trigger] self.nodes@[j]).commit_oid.num != oid,
            decreases n - k,
        {
            if self.nodes[k].commit_oid.num == oid {
                return Some(k);
            }
            k += 1;
        }
        None
    }

    /// Whether the graph holds a node for the commit.
    pub fn contains_key(&self, oid: u64) -> (b: bool)
        ensures
            b == graph_has(self.nodes@, oid),
    {
        match self.find_node_index(oid) {
            Some(k) => {
                proof {
                    assert(graph_has(self.nodes@, oid));
                }
                true
            },
            None => false,
        }
    }
}

/// Inserting into a sequence adds exactly the new element to its contents.
proof fn lemma_insert_contains(s: Seq<NonZeroOid>, i: int, x: NonZeroOid)
    requires
        0 <= i <= s.len(),
    ensures
        forall|y: NonZeroOid| #[trigger]
            s.insert(i, x).contains(y) <==> (y == x || s.contains(y)),
{
    let t = s.insert(i, x);
    assert forall|y: NonZeroOid| #[trigger] t.contains(y) implies (y == x || s.contains(y)) by {
        let w = choose|w: int| 0 <= w < t.len() && t[w] == y;
        if w < i {
            assert(s[w] == y);
        } else if w > i {
            assert(s[w - 1] == y);
        }
    }
    assert forall|y: NonZeroOid| (y == x || s.contains(y)) implies #[trigger] t.contains(y) by {
        if y == x {
            assert(t[i] == y);
        } else {
            let w = choose|w: int| 0 <= w < s.len() && s[w] == y;
            if w < i {
                assert(t[w] == y);
            } else {
                assert(t[w + 1] == y);
            }
        }
    }
}

/// Sort child ids by committer timestamp ascending, ties broken by id.
/// Keeps exactly the same set of ids.
#[verifier::loop_isolation(false)]
pub fn sort_children(repo: &Repo, v: &Vec<NonZeroOid>) -> (r: Vec<NonZeroOid>)
    requires
        repo.commits_wf(),
        forall|k: int| 0 <= k < v@.len() ==> has_commit(repo.commits@, (#[trigger] v@[k]).num),
    ensures
        r@.len() == v@.len(),
        forall|y: NonZeroOid| #[trigger] r@.contains(y) <==> v@.contains(y),
        forall|a: int, b: int| 0 <= a < b < r@.len() ==> child_le(*repo, r@[a], r@[b]),
{
    let n = v.len();
    let mut out: Vec<NonZeroOid> = Vec::new();
    let mut i: usize = 0;
    while i < n
        invariant
            i <= n,
            out@.len() == i,
            forall|y: NonZeroOid| #[trigger] out@.contains(y) <==> v@.subrange(0, i as int).contains(y),
            forall|a: int, b: int| 0 <= a < b < out@.len() ==> child_le(*repo, out@[a], out@[b]),
            forall|k: int| 0 <= k < out@.len() ==> has_commit(repo.commits@, (#[trigger] out@[k]).num),
        decreases n - i,
    {
        let x = v[i];
        let xt = commit_time(repo, x);
        // find the insertion position: the first entry not `<=` x
        let m = out.len();
        let mut p: usize = 0;
        let mut stop = false;
        while !stop && p < m
            invariant
                p <= m,
                m == out@.len(),
                forall|j: int| 0 <= j < p ==> child_le(*repo, #[trigger] out@[j], x),
                stop ==> p < m && !child_le(*repo, out@[p as int], x),
            decreases m - p, if stop { 0int } else { 1int },
        {
            let e = out[p];
            let et = commit_time(repo, e);
            if et < xt || (et == xt && e.num <= x.num) {
                p += 1;
            } else {
                stop = true;
            }
        }
        proof {
            if p < m {
                assert(!child_le(*repo, out@[p as int], x));
                assert(child_le(*repo, x, out@[p as int]));
            }
        }
        let ghost out0 = out@;
        out.insert(p, x);
        proof {
            assert(out@ == out0.insert(p as int, x));
            lemma_insert_contains(out0, p as int, x);
            assert forall|y: NonZeroOid| #[trigger] out@.contains(y) <==> v@.subrange(
                0,
                i + 1,
            ).contains(y) by {
                assert(v@.subrange(0, i + 1).drop_last() =~= v@.subrange(0, i as int));
                assert(v@.subrange(0, i + 1).last() == v@[i as int]);
                if out@.contains(y) {
                    if y == x {
                        assert(v@.subrange(0, i + 1)[i as int] == y);
                    } else {
                        let w = choose|w: int|
                            0 <= w < v@.subrange(0, i as int).len() && (#[trigger] v@.subrange(
                                0,
                                i as int,
                            )[w]) == y;
                        assert(v@.subrange(0, i + 1)[w] == y);
                    }
                } else {
                }
                if v@.subrange(0, i + 1).contains(y) {
                    let w = choose|w: int|
                        0 <= w < v@.subrange(0, i + 1).len() && (#[trigger] v@.subrange(
                            0,
                            i + 1,
                        )[w]) == y;
                    if w < i {
                        assert(v@.subrange(0, i as int)[w] == y);
                    } else {
                        assert(y == x);
                    }
                }
            }
            assert forall|a: int, b: int| 0 <= a < b < out@.len() implies child_le(
                *repo,
                out@[a],
                out@[b],
            ) by {
                let xa = if a < p {
                    out0[a]
                } else if a == p {
                    x
                } else {
                    out0[a - 1]
                };
                let xb = if b < p {
                    out0[b]
                } else if b == p {
                    x
                } else {
                    out0[b - 1]
                };
                assert(out@[a] == xa);
                assert(out@[b] == xb);
                if a < p && b == p {
                } else if a == p && b > p {
                    // x <= out0[p] <= out0[b-1]
                    if b - 1 > p {
                        assert(child_le(*repo, out0[p as int], out0[b - 1]));
                    }
                } else if a < p && b > p {
                } else {
                }
            }
            assert forall|k: int| 0 <= k < out@.len() implies has_commit(
                repo.commits@,
                (#[trigger] out@[k]).num,
            ) by {
                if k != p {
                    let w = if k < p {
                        k
                    } else {
                        k - 1
                    };
                    assert(out0[w] == out@[k]);
                }
            }
        }
        i += 1;
    }
    proof {
        assert(v@.subrange(0, n as int) =~= v@);
    }
    out
}

/// Pushing onto an id list keeps everything it contained and adds the new
/// id.
proof fn lemma_push_keeps(s: Seq<u64>, x: u64)
    ensures
        s.push(x).contains(x),
        forall|y: u64| s.contains(y) ==> #[trigger] s.push(x).contains(y),
{
    assert(s.push(x)[s.len() as int] == x);
    assert forall|y: u64| s.contains(y) implies #[trigger] s.push(x).contains(y) by {
        let w = choose|w: int| 0 <= w < s.len() && s[w] == y;
        assert(s.push(x)[w] == y);
    }
}

/// One commit while the graph is being assembled.
#[derive(Clone, Copy)]
struct TmpEntry {
    oid: u64,
    repo_idx: usize,
    parent: u64,
    is_main: bool,
    is_visible: bool,
}

/// Whether a staged entry for table position `i2` exists.
spec fn tmp_has_idx(s: Seq<TmpEntry>, i2: int) -> bool {
    exists|t: int| 0 <= t < s.len() && (#[trigger] s[t]).repo_idx == i2
}

/// The retention rule while sweeping hidden commits: an entry stays when it
/// is visible or some later entry whose parent edge points at it stays.
spec fn keep_rel(tmp: Seq<TmpEntry>, keep: Seq<bool>, t: int) -> bool {
    tmp[t].is_visible || exists|u: int|
        t < u < tmp.len() && (#[trigger] tmp[u]).parent == tmp[t].oid && keep[u]
}

/// The committer timestamp of a commit that is known to exist.
fn commit_time(repo: &Repo, oid: NonZeroOid) -> (t: u64)
    requires
        repo.commits_wf(),
        has_commit(repo.commits@, oid.num),
    ensures
        t == repo.commits@[idx_of(repo.commits@, oid.num)].committer_time,
{
    match repo.find_commit(oid.num) {
        Some(c) => c.committer_time,
        None => {
            proof {
                assert(false);
            }
            0
        },
    }
}

/// Build the visible commit graph at a cursor.
///
/// Seeds are HEAD, the main branch tip, the branch tips, and every commit
/// the replayer marks visible at the cursor; commits the log mentions but
/// the repository no longer holds are skipped. Each seed's first-parent
/// ancestors down to its merge base with the main branch join the graph,
/// together with the main branch segment down to the eldest such merge base.
/// Main-segment nodes are always visible; others follow the replayer, and a
/// commit the log never touched is visible exactly when it is HEAD or a
/// branch tip. Unless `include_hidden` is set, hidden commits that no
/// visible commit descends from are removed.
/// Seed commits: HEAD, the main branch tip, the branch tips, and every
/// commit the replayer marks visible at the cursor.
#[verifier::loop_isolation(false)]
fn collect_seeds(
    repo: &Repo,
    event_replayer: &EventReplayer,
    event_cursor: EventCursor,
    head_oid: &HeadOid,
    main_branch_oid: &MainBranchOid,
    branch_oids: &BranchOids,
) -> (seeds: Vec<u64>)
    requires
        repo.wf(),
        head_oid.0 matches Some(h) ==> has_commit(repo.commits@, h.num),
        has_commit(repo.commits@, main_branch_oid.0.num),
        forall|k: int|
            0 <= k < branch_oids.0@.len() ==> has_commit(
                repo.commits@,
                #[trigger] branch_oids.0@[k],
            ),
    ensures
        forall|t: int| 0 <= t < seeds@.len() ==> has_commit(repo.commits@, #[trigger] seeds@[t]),
        seeds@.contains(main_branch_oid.0.num),
        forall|o: u64|
            has_commit(repo.commits@, o) && #[trigger] vis_prefix(
                event_replayer.events(),
                event_cursor.event_id - 1,
                o,
            ) == Some(CommitVisibility::Visible) ==> seeds@.contains(o),
{
    let main_num = main_branch_oid.0.num;
    let mut seeds: Vec<u64> = Vec::new();
    match head_oid.0 {
        Some(h) => {
            seeds.push(h.num);
        },
        None => {},
    }
    proof {
        assert(forall|t: int|
            0 <= t < seeds@.len() ==> has_commit(repo.commits@, #[trigger] seeds@[t]));
    }
    seeds.push(main_num);
    let ghost main_seed_pos = seeds@.len() - 1;
    let nb = branch_oids.0.len();
    let mut bi: usize = 0;
    while bi < nb
        invariant
            bi <= nb,
            seeds@.len() > main_seed_pos >= 0,
            seeds@[main_seed_pos] == main_num,
            forall|t: int| 0 <= t < seeds@.len() ==> has_commit(repo.commits@, #[trigger] seeds@[t]),
        decreases nb - bi,
    {
        seeds.push(branch_oids.0[bi]);
        bi += 1;
    }
    let active = event_replayer.get_active_oids(event_cursor);
    let na = active.len();
    let mut ai: usize = 0;
    while ai < na
        invariant
            ai <= na,
            na == active@.len(),
            seeds@.len() > main_seed_pos >= 0,
            seeds@[main_seed_pos] == main_num,
            forall|t: int| 0 <= t < seeds@.len() ==> has_commit(repo.commits@, #[trigger] seeds@[t]),
            forall|w: int|
                0 <= w < ai && has_commit(repo.commits@, #[trigger] active@[w]) ==> seeds@.contains(
                    active@[w],
                ),
        decreases na - ai,
    {
        let a = active[ai];
        match repo.find_commit_index(a) {
            Some(_) => {
                let ghost s0 = seeds@;
                seeds.push(a);
                proof {
                    lemma_push_keeps(s0, a);
                    assert forall|w: int|
                        0 <= w < ai + 1 && has_commit(
                            repo.commits@,
                            #[trigger] active@[w],
                        ) implies seeds@.contains(active@[w]) by {
                        if w < ai {
                            assert(s0.contains(active@[w]));
                        }
                    }
                    assert(seeds@[main_seed_pos] == main_num);
                }
            },
            None => {},
        }
        ai += 1;
    }
    proof {
        assert(seeds@[main_seed_pos] == main_num);
        assert(seeds@.contains(main_num));
        assert forall|o: u64|
            has_commit(repo.commits@, o) && #[trigger] vis_prefix(
                event_replayer.events(),
                event_cursor.event_id - 1,
                o,
            ) == Some(CommitVisibility::Visible) implies seeds@.contains(o) by {
            assert(active@.contains(o));
            let w = choose|w: int| 0 <= w < active@.len() && active@[w] == o;
            assert(has_commit(repo.commits@, active@[w]));
        }
    }
    seeds
}

/// Collect the first-parent ancestors of every seed down to its merge base
/// with the main branch, together with the main branch segment down to the
/// eldest such merge base. Returns the collected ids and the main segment.
#[verifier::loop_isolation(false)]
fn gather_ancestors(repo: &Repo, merge_base_db: &mut MergeBaseDb, seeds: &Vec<u64>, main_num: u64) -> (r:
    (Vec<u64>, Vec<u64>))
    requires
        repo.wf(),
        old(merge_base_db).wf(*repo),
        has_commit(repo.commits@, main_num),
        forall|t: int| 0 <= t < seeds@.len() ==> has_commit(repo.commits@, #[trigger] seeds@[t]),
    ensures
        final(merge_base_db).wf(*repo),
        forall|t: int| 0 <= t < seeds@.len() ==> r.0@.contains(#[trigger] seeds@[t]),
        forall|y: u64| #[trigger] r.1@.contains(y) ==> r.0@.contains(y),
        r.1@.contains(main_num),
{
    let mut member: Vec<u64> = Vec::new();
    let mut eldest: u64 = main_num;
    let mut eldest_idx: usize = match repo.find_commit_index(main_num) {
        Some(i) => i,
        None => {
            proof {
                assert(false);
            }
            0
        },
    };
    let ns = seeds.len();
    let mut si: usize = 0;
    while si < ns
        invariant
            si <= ns,
            ns == seeds@.len(),
            merge_base_db.wf(*repo),
            eldest_idx < repo.commits@.len(),
            repo.commits@[eldest_idx as int].oid.num == eldest,
            forall|t: int| 0 <= t < si ==> member@.contains(#[trigger] seeds@[t]),
        decreases ns - si,
    {
        let s = seeds[si];
        let ghost m0 = member@;
        member.push(s);
        proof {
            lemma_push_keeps(m0, s);
        }
        match merge_base_db.find_path_to_merge_base(repo, s, main_num) {
            Some(p) => {
                let np = p.len();
                let mut j: usize = 0;
                while j < np
                    invariant
                        j <= np,
                        np == p@.len(),
                        member@.contains(s),
                        forall|t: int| 0 <= t < si ==> member@.contains(#[trigger] seeds@[t]),
                    decreases np - j,
                {
                    let ghost m1 = member@;
                    member.push(p[j]);
                    proof {
                        lemma_push_keeps(m1, p@[j as int]);
                    }
                    j += 1;
                }
                if np > 0 {
                    let mb = p[np - 1];
                    match repo.find_commit_index(mb) {
                        Some(mbi) => {
                            if mbi < eldest_idx {
                                eldest = mb;
                                eldest_idx = mbi;
                            }
                        },
                        None => {},
                    }
                }
            },
            None => {
                let ch = commit_chain(repo, s);
                let nc = ch.len();
                let mut j: usize = 0;
                while j < nc
                    invariant
                        j <= nc,
                        nc == ch@.len(),
                        member@.contains(s),
                        forall|t: int| 0 <= t < si ==> member@.contains(#[trigger] seeds@[t]),
                    decreases nc - j,
                {
                    let ghost m1 = member@;
                    member.push(ch[j]);
                    proof {
                        lemma_push_keeps(m1, ch@[j as int]);
                    }
                    j += 1;
                }
            },
        }
        proof {
            assert(member@.contains(seeds@[si as int]));
        }
        si += 1;
    }

    // The main branch segment, from the tip down to the eldest merge base
    // (or the root when the eldest merge base does not lie on the chain).
    let main_chain = commit_chain(repo, main_num);
    proof {
        let mi = idx_of(repo.commits@, main_num);
        assert(0 <= mi < repo.commits@.len() && repo.commits@[mi].oid.num == main_num);
        assert(chain_oids_first(repo.commits@, mi, main_num)) by {
            reveal_chain_first(repo.commits@, mi);
        }
    }
    let mut main_seg: Vec<u64> = Vec::new();
    let nm = main_chain.len();
    let mut j: usize = 0;
    let mut done = false;
    while !done && j < nm
        invariant
            j <= nm,
            nm == main_chain@.len(),
            nm > 0 ==> main_chain@[0] == main_num,
            j > 0 ==> main_seg@.contains(main_num),
            done ==> j > 0,
            forall|t: int| 0 <= t < ns ==> member@.contains(#[trigger] seeds@[t]),
            forall|y: u64| #[trigger] main_seg@.contains(y) ==> member@.contains(y),
        decreases nm - j, if done {
            0int
        } else {
            1int
        },
    {
        let x = main_chain[j];
        let ghost m1 = member@;
        member.push(x);
        let ghost g1 = main_seg@;
        main_seg.push(x);
        proof {
            lemma_push_keeps(m1, x);
            lemma_push_keeps(g1, x);
            assert forall|y: u64| #[trigger] main_seg@.contains(y) implies member@.contains(y) by {
                let w = choose|w: int| 0 <= w < main_seg@.len() && main_seg@[w] == y;
                if w < g1.len() {
                    assert(g1[w] == y);
                    assert(g1.contains(y));
                    assert(m1.contains(y));
                }
            }
        }
        if x == eldest {
            done = true;
        }
        j += 1;
    }
    proof {
        assert(nm > 0) by {
            let mi = idx_of(repo.commits@, main_num);
            reveal_chain_first(repo.commits@, mi);
        }
        assert(main_seg@.contains(main_num));
    }
    (member, main_seg)
}

/// Whether a staged entry correctly describes its commit: its table
/// position, its flags per the visibility policy, and its parent edge
/// within the collected set.
spec fn tmp_entry_ok(
    repo: Repo,
    events: Seq<Event>,
    ncur: int,
    head: u64,
    branches: Seq<u64>,
    member: Seq<u64>,
    main_seg: Seq<u64>,
    e: TmpEntry,
) -> bool {
    &&& (e.repo_idx as int) < repo.commits@.len()
    &&& repo.commits@[e.repo_idx as int].oid.num == e.oid
    &&& e.is_main == main_seg.contains(e.oid)
    &&& e.is_visible == visible_at(events, ncur, e.oid, head, branches, e.is_main)
    &&& (e.parent != 0 ==> repo.commits@[e.repo_idx as int].parents@.len() > 0 && e.parent
        == repo.commits@[e.repo_idx as int].parents@[0].num && member.contains(e.parent))
    &&& (e.parent == 0 ==> (repo.commits@[e.repo_idx as int].parents@.len() == 0
        || !member.contains(repo.commits@[e.repo_idx as int].parents@[0].num)))
}

/// Stage the collected commits in table order, with their flags.
#[verifier::loop_isolation(false)]
fn stage_entries(
    repo: &Repo,
    event_replayer: &EventReplayer,
    event_cursor: EventCursor,
    head_num: u64,
    branch_oids: &BranchOids,
    member: &Vec<u64>,
    main_seg: &Vec<u64>,
) -> (tmp: Vec<TmpEntry>)
    requires
        repo.wf(),
    ensures
        forall|t: int|
            0 <= t < tmp@.len() ==> tmp_entry_ok(
                *repo,
                event_replayer.events(),
                event_cursor.event_id - 1,
                head_num,
                branch_oids.0@,
                member@,
                main_seg@,
                #[trigger] tmp@[t],
            ),
        forall|t1: int, t2: int|
            0 <= t1 < t2 < tmp@.len() ==> (#[trigger] tmp@[t1]).repo_idx < (
            #[trigger] tmp@[t2]).repo_idx,
        forall|i2: int|
            0 <= i2 < repo.commits@.len() && member@.contains(
                (#[trigger] repo.commits@[i2]).oid.num,
            ) ==> tmp_has_idx(tmp@, i2),
{
    let ghost events = event_replayer.events();
    let ghost ncur: int = event_cursor.event_id - 1;
    let ncommits = repo.commits.len();
    let mut tmp: Vec<TmpEntry> = Vec::new();
    let mut ci: usize = 0;
    while ci < ncommits
        invariant
            ci <= ncommits,
            ncommits == repo.commits@.len(),
            forall|t: int|
                0 <= t < tmp@.len() ==> {
                    let e = #[trigger] tmp@[t];
                    &&& e.repo_idx < ci
                    &&& repo.commits@[e.repo_idx as int].oid.num == e.oid
                    &&& e.is_main == main_seg@.contains(e.oid)
                    &&& e.is_visible == visible_at(
                        events,
                        ncur,
                        e.oid,
                        head_num,
                        branch_oids.0@,
                        e.is_main,
                    )
                    &&& (e.parent != 0 ==> repo.commits@[e.repo_idx as int].parents@.len() > 0
                        && e.parent == repo.commits@[e.repo_idx as int].parents@[0].num
                        && member@.contains(e.parent))
                    &&& (e.parent == 0 ==> (repo.commits@[e.repo_idx as int].parents@.len() == 0
                        || !member@.contains(repo.commits@[e.repo_idx as int].parents@[0].num)))
                },
            forall|t1: int, t2: int|
                0 <= t1 < t2 < tmp@.len() ==> (#[trigger] tmp@[t1]).repo_idx < (
                #[trigger] tmp@[t2]).repo_idx,
            forall|i2: int|
                0 <= i2 < ci && member@.contains((#[trigger] repo.commits@[i2]).oid.num)
                    ==> tmp_has_idx(tmp@, i2),
        decreases ncommits - ci,
    {
        let o = repo.commits[ci].oid.num;
        if oid_list_contains(&member, o) {
            let par: u64 = if repo.commits[ci].parents.len() > 0 {
                let p0 = repo.commits[ci].parents[0].num;
                if oid_list_contains(&member, p0) {
                    p0
                } else {
                    0
                }
            } else {
                0
            };
            proof {
                if repo.commits@[ci as int].parents@.len() > 0 {
                    assert(repo.commits@[ci as int].parents@[0].num != 0) by {
                        let pb = repo.commits@[ci as int].parents@[0];
                        assert(crate::repo::parent_before(repo.commits@, ci as int, pb));
                        let w = choose|w: int|
                            0 <= w < ci && (#[trigger] repo.commits@[w]).oid.num == pb.num;
                        assert(repo.commits@[w].oid.num > 0);
                    }
                }
            }
            let im = oid_list_contains(&main_seg, o);
            let iv: bool = if im {
                true
            } else {
                match event_replayer.get_cursor_commit_visibility(
                    event_cursor,
                    NonZeroOid { num: o },
                ) {
                    Some(CommitVisibility::Visible) => true,
                    Some(CommitVisibility::Hidden) => false,
                    None => o == head_num || oid_list_contains(&branch_oids.0, o),
                }
            };
            let e = TmpEntry { oid: o, repo_idx: ci, parent: par, is_main: im, is_visible: iv };
            let ghost t0 = tmp@;
            tmp.push(e);
            proof {
                assert(tmp@[t0.len() as int] == e);
                assert forall|i2: int|
                    0 <= i2 < ci + 1 && member@.contains(
                        (#[trigger] repo.commits@[i2]).oid.num,
                    ) implies tmp_has_idx(tmp@, i2) by {
                    if i2 < ci {
                        let t = choose|t: int|
                            0 <= t < t0.len() && (#[trigger] t0[t]).repo_idx == i2;
                        assert(tmp@[t].repo_idx == i2);
                    } else {
                        assert(tmp@[t0.len() as int].repo_idx == i2);
                    }
                }
            }
        }
        ci += 1;
    }
    tmp
}

/// The sweep of hidden commits: decide which staged entries stay.
#[verifier::loop_isolation(false)]
fn sweep_keep(tmp: &Vec<TmpEntry>, include_hidden: bool) -> (keep: Vec<bool>)
    ensures
        keep@.len() == tmp@.len(),
        forall|t2: int| 0 <= t2 < tmp@.len() && tmp@[t2].is_visible ==> #[trigger] keep@[t2],
        !include_hidden ==> forall|t2: int|
            0 <= t2 < tmp@.len() ==> #[trigger] keep@[t2] == keep_rel(tmp@, keep@, t2),
        include_hidden ==> forall|t2: int| 0 <= t2 < tmp@.len() ==> #[trigger] keep@[t2],
{
    let m = tmp.len();
    let mut keep: Vec<bool> = Vec::new();
    if include_hidden {
        let mut t: usize = 0;
        while t < m
            invariant
                t <= m,
                keep@.len() == t,
                forall|t2: int| 0 <= t2 < t ==> #[trigger] keep@[t2],
            decreases m - t,
        {
            keep.push(true);
            t += 1;
        }
    } else {
        let mut t: usize = 0;
        while t < m
            invariant
                t <= m,
                keep@.len() == t,
            decreases m - t,
        {
            keep.push(false);
            t += 1;
        }
        let mut t: usize = m;
        while t > 0
            invariant
                t <= m,
                keep@.len() == m,
                m == tmp@.len(),
                forall|t2: int|
                    t <= t2 < m ==> #[trigger] keep@[t2] == keep_rel(tmp@, keep@, t2),
            decreases t,
        {
            t -= 1;
            let mut kf = tmp[t].is_visible;
            let mut u: usize = t + 1;
            while u < m
                invariant
                    t < u <= m,
                    m == tmp@.len(),
                    keep@.len() == m,
                    forall|t2: int|
                        t + 1 <= t2 < m ==> #[trigger] keep@[t2] == keep_rel(tmp@, keep@, t2),
                    kf == (tmp@[t as int].is_visible || exists|u2: int|
                        t < u2 < u && (#[trigger] tmp@[u2]).parent == tmp@[t as int].oid
                            && keep@[u2]),
                decreases m - u,
            {
                if !kf {
                    let hit = tmp[u].parent == tmp[t].oid;
                    let ku = keep[u];
                    if hit && ku {
                        kf = true;
                        proof {
                            assert((#[trigger] tmp@[u as int]).parent == tmp@[t as int].oid
                                && keep@[u as int]);
                        }
                    }
                }
                u += 1;
            }
            let ghost k0 = keep@;
            keep.set(t, kf);
            proof {
                assert(keep@ == k0.update(t as int, kf));
                assert forall|t2: int|
                    t <= t2 < m implies #[trigger] keep@[t2] == keep_rel(tmp@, keep@, t2) by {
                    if t2 == t {
                        assert(keep@[t2] == kf);
                        assert forall|u2: int| t < u2 < m implies keep@[u2] == k0[u2] by {}
                    } else {
                        assert(keep@[t2] == k0[t2]);
                        assert(k0[t2] == keep_rel(tmp@, k0, t2));
                        assert forall|u2: int| t2 < u2 < m implies keep@[u2] == k0[u2] by {}
                    }
                }
            }
        }
    }
    proof {
        assert forall|t2: int|
            0 <= t2 < m && tmp@[t2].is_visible implies #[trigger] keep@[t2] by {
            if !include_hidden {
                assert(keep@[t2] == keep_rel(tmp@, keep@, t2));
            }
        }
    }
    keep
}

/// Whether a node was taken from a kept staged entry at the given table
/// position.
spec fn node_from_tmp(tmp: Seq<TmpEntry>, keep: Seq<bool>, nd: Node, ri: usize) -> bool {
    exists|t: int|
        0 <= t < tmp.len() && keep[t] && (#[trigger] tmp[t]).oid == nd.commit_oid.num && tmp[t].repo_idx
            == ri && tmp[t].is_main == nd.is_main && tmp[t].is_visible == nd.is_visible
}

/// Assemble the kept entries into bare nodes in table order, returning the
/// nodes and their table positions.
#[verifier::loop_isolation(false)]
fn assemble_nodes(repo: &Repo, tmp: &Vec<TmpEntry>, keep: &Vec<bool>) -> (r: (Vec<Node>, Vec<usize>))
    requires
        repo.commits_wf(),
        keep@.len() == tmp@.len(),
        forall|t: int|
            0 <= t < tmp@.len() ==> ((#[trigger] tmp@[t]).repo_idx as int) < repo.commits@.len()
                && repo.commits@[tmp@[t].repo_idx as int].oid.num == tmp@[t].oid,
        forall|t1: int, t2: int|
            0 <= t1 < t2 < tmp@.len() ==> (#[trigger] tmp@[t1]).repo_idx < (
            #[trigger] tmp@[t2]).repo_idx,
    ensures
        r.0@.len() == r.1@.len(),
        forall|f: int|
            0 <= f < r.0@.len() ==> {
                let nd = #[trigger] r.0@[f];
                let ri = r.1@[f];
                &&& node_from_tmp(tmp@, keep@, nd, ri)
                &&& (ri as int) < repo.commits@.len()
                &&& repo.commits@[ri as int].oid.num == nd.commit_oid.num
                &&& nd.commit_oid.num != 0
                &&& nd.parent is None
                &&& nd.children@.len() == 0
            },
        forall|f1: int, f2: int|
            0 <= f1 < f2 < r.0@.len() ==> (#[trigger] r.1@[f1]) < (#[trigger] r.1@[f2]),
        forall|t2: int|
            0 <= t2 < tmp@.len() && #[trigger] keep@[t2] ==> graph_has(r.0@, tmp@[t2].oid),
{
    let m = tmp.len();
    let mut nodes1: Vec<Node> = Vec::new();
    let mut n1idx: Vec<usize> = Vec::new();
    let mut t: usize = 0;
    while t < m
        invariant
            t <= m,
            m == tmp@.len(),
            keep@.len() == m,
            nodes1@.len() == n1idx@.len(),
            forall|f: int|
                0 <= f < nodes1@.len() ==> {
                    let nd = #[trigger] nodes1@[f];
                    let ri = n1idx@[f];
                    &&& node_from_tmp(tmp@, keep@, nd, ri)
                    &&& (ri as int) < repo.commits@.len()
                    &&& repo.commits@[ri as int].oid.num == nd.commit_oid.num
                    &&& nd.commit_oid.num != 0
                    &&& nd.parent is None
                    &&& nd.children@.len() == 0
                },
            forall|f1: int, f2: int|
                0 <= f1 < f2 < nodes1@.len() ==> (#[trigger] n1idx@[f1]) < (#[trigger] n1idx@[f2]),
            forall|ff: int|
                0 <= ff < n1idx@.len() && t < m ==> (#[trigger] n1idx@[ff]) < tmp@[t as int].repo_idx,
            forall|t2: int|
                0 <= t2 < t && #[trigger] keep@[t2] ==> graph_has(nodes1@, tmp@[t2].oid),
        decreases m - t,
    {
        if keep[t] {
            let e = tmp[t];
            proof {
                assert(repo.commits@[e.repo_idx as int].oid.num == e.oid);
                assert(e.oid != 0);
            }
            let nd = Node {
                commit_oid: NonZeroOid { num: e.oid },
                parent: None,
                children: Vec::new(),
                is_main: e.is_main,
                is_visible: e.is_visible,
            };
            let ghost nn0 = nodes1@;
            nodes1.push(nd);
            n1idx.push(e.repo_idx);
            proof {
                assert(nodes1@[nn0.len() as int].commit_oid.num == e.oid);
                assert(node_from_tmp(tmp@, keep@, nd, e.repo_idx)) by {
                    assert(0 <= t < tmp@.len() && keep@[t as int] && (#[trigger] tmp@[
                        t as int
                    ]).oid == nd.commit_oid.num && tmp@[t as int].repo_idx == e.repo_idx && tmp@[
                        t as int
                    ].is_main == nd.is_main && tmp@[t as int].is_visible == nd.is_visible);
                }
                assert forall|t2: int|
                    0 <= t2 < t + 1 && #[trigger] keep@[t2] implies graph_has(
                    nodes1@,
                    tmp@[t2].oid,
                ) by {
                    if t2 < t {
                        let w = choose|w: int|
                            0 <= w < nn0.len() && (#[trigger] nn0[w]).commit_oid.num
                                == tmp@[t2].oid;
                        assert(nodes1@[w].commit_oid.num == tmp@[t2].oid);
                    } else {
                        assert(nodes1@[nn0.len() as int].commit_oid.num == tmp@[t2].oid);
                    }
                }
                assert forall|f1: int, f2: int|
                    0 <= f1 < f2 < nodes1@.len() implies (#[trigger] n1idx@[f1]) < (
                #[trigger] n1idx@[f2]) by {
                    if f2 == nodes1@.len() - 1 {
                        assert(n1idx@[f2] == e.repo_idx);
                    }
                }
                assert forall|ff: int|
                    0 <= ff < n1idx@.len() && t + 1 < m implies (#[trigger] n1idx@[ff]) < tmp@[t
                    + 1].repo_idx by {
                    assert(tmp@[t as int].repo_idx < tmp@[t + 1].repo_idx);
                }
            }
        }
        t += 1;
    }
    (nodes1, n1idx)
}

/// Resolve parent edges within the kept set: each node's parent is its
/// commit's first parent when that parent is itself in the graph.
#[verifier::loop_isolation(false)]
fn resolve_parents(repo: &Repo, nodes1: &Vec<Node>, n1idx: &Vec<usize>) -> (nodes2: Vec<Node>)
    requires
        repo.wf(),
        nodes1@.len() == n1idx@.len(),
        forall|f: int|
            0 <= f < nodes1@.len() ==> ((#[trigger] n1idx@[f]) as int) < repo.commits@.len()
                && repo.commits@[n1idx@[f] as int].oid.num == nodes1@[f].commit_oid.num,
    ensures
        nodes2@.len() == nodes1@.len(),
        forall|f2: int|
            0 <= f2 < nodes2@.len() ==> {
                let nd = #[trigger] nodes2@[f2];
                let nd1 = nodes1@[f2];
                &&& nd.commit_oid == nd1.commit_oid
                &&& nd.is_main == nd1.is_main
                &&& nd.is_visible == nd1.is_visible
                &&& nd.children@.len() == 0
                &&& (nd.parent matches Some(p) ==> {
                    let c = repo.commits@[idx_of(repo.commits@, nd.commit_oid.num)];
                    graph_has(nodes1@, p.num) && c.parents@.len() > 0 && c.parents@[0] == p
                })
            },
{
    let n1 = nodes1.len();
    let mut nodes2: Vec<Node> = Vec::new();
    let mut f: usize = 0;
    while f < n1
        invariant
            f <= n1,
            n1 == nodes1@.len(),
            n1idx@.len() == n1,
            nodes2@.len() == f,
            forall|f2: int|
                0 <= f2 < f ==> {
                    let nd = #[trigger] nodes2@[f2];
                    let nd1 = nodes1@[f2];
                    &&& nd.commit_oid == nd1.commit_oid
                    &&& nd.is_main == nd1.is_main
                    &&& nd.is_visible == nd1.is_visible
                    &&& nd.children@.len() == 0
                    &&& (nd.parent matches Some(p) ==> {
                        let c = repo.commits@[idx_of(repo.commits@, nd.commit_oid.num)];
                        graph_has(nodes1@, p.num) && c.parents@.len() > 0 && c.parents@[0] == p
                    })
                },
        decreases n1 - f,
    {
        let ri = n1idx[f];
        let c = &repo.commits[ri];
        proof {
            assert(repo.commits@[ri as int].oid.num == nodes1@[f as int].commit_oid.num);
            assert(idx_of(repo.commits@, nodes1@[f as int].commit_oid.num) == ri as int) by {
                let w = idx_of(repo.commits@, nodes1@[f as int].commit_oid.num);
                assert(has_commit(repo.commits@, nodes1@[f as int].commit_oid.num)) by {
                    assert(repo.commits@[ri as int].oid.num == nodes1@[f as int].commit_oid.num);
                }
                assert(0 <= w < repo.commits@.len() && repo.commits@[w].oid.num == nodes1@[
                    f as int
                ].commit_oid.num);
                assert(w == ri as int);
            }
        }
        let parent: Option<NonZeroOid> = if c.parents.len() > 0 {
            let fp = c.parents[0];
            let mut found = false;
            let mut q: usize = 0;
            while q < n1
                invariant
                    q <= n1,
                    n1 == nodes1@.len(),
                    found ==> graph_has(nodes1@, fp.num),
                    !found ==> forall|w: int|
                        0 <= w < q ==> (#[trigger] nodes1@[w]).commit_oid.num != fp.num,
                decreases n1 - q,
            {
                if nodes1[q].commit_oid.num == fp.num {
                    found = true;
                    proof {
                        assert(nodes1@[q as int].commit_oid.num == fp.num);
                    }
                    q = n1;
                } else {
                    q += 1;
                }
            }
            if found {
                Some(fp)
            } else {
                None
            }
        } else {
            None
        };
        let nd1 = &nodes1[f];
        nodes2.push(
            Node {
                commit_oid: nd1.commit_oid,
                parent,
                children: Vec::new(),
                is_main: nd1.is_main,
                is_visible: nd1.is_visible,
            },
        );
        f += 1;
    }
    nodes2
}

/// Invert parent edges into ordered children lists.
#[verifier::loop_isolation(false)]
fn build_children(repo: &Repo, nodes2: &Vec<Node>, n1idx: &Vec<usize>) -> (nodes3: Vec<Node>)
    requires
        repo.commits_wf(),
        nodes2@.len() == n1idx@.len(),
        forall|g: int|
            0 <= g < nodes2@.len() ==> ((#[trigger] n1idx@[g]) as int) < repo.commits@.len()
                && repo.commits@[n1idx@[g] as int].oid.num == nodes2@[g].commit_oid.num
                && nodes2@[g].commit_oid.num != 0,
    ensures
        nodes3@.len() == nodes2@.len(),
        forall|f2: int|
            0 <= f2 < nodes3@.len() ==> {
                let nd = #[trigger] nodes3@[f2];
                let nd2 = nodes2@[f2];
                &&& nd.commit_oid == nd2.commit_oid
                &&& nd.parent == nd2.parent
                &&& nd.is_main == nd2.is_main
                &&& nd.is_visible == nd2.is_visible
                &&& (forall|a: int, b: int|
                    0 <= a < b < nd.children@.len() ==> child_le(
                        *repo,
                        #[trigger] nd.children@[a],
                        #[trigger] nd.children@[b],
                    ))
                &&& (forall|y: NonZeroOid|
                    #[trigger] nd.children@.contains(y) <==> exists|g2: int|
                        0 <= g2 < nodes2@.len() && (#[trigger] nodes2@[g2]).parent == Some(
                            nd2.commit_oid,
                        ) && nodes2@[g2].commit_oid == y)
            },
{
    let n1 = nodes2.len();
    let mut nodes3: Vec<Node> = Vec::new();
    let mut f: usize = 0;
    while f < n1
        invariant
            f <= n1,
            n1 == nodes2@.len(),
            nodes3@.len() == f,
            forall|f2: int|
                0 <= f2 < f ==> {
                    let nd = #[trigger] nodes3@[f2];
                    let nd2 = nodes2@[f2];
                    &&& nd.commit_oid == nd2.commit_oid
                    &&& nd.parent == nd2.parent
                    &&& nd.is_main == nd2.is_main
                    &&& nd.is_visible == nd2.is_visible
                    &&& forall|a: int, b: int|
                        0 <= a < b < nd.children@.len() ==> child_le(
                            *repo,
                            #[trigger] nd.children@[a],
                            #[trigger] nd.children@[b],
                        )
                    &&& forall|y: NonZeroOid|
                        #[trigger] nd.children@.contains(y) <==> exists|g2: int|
                            0 <= g2 < nodes2@.len() && (#[trigger] nodes2@[g2]).parent == Some(
                                nd2.commit_oid,
                            ) && nodes2@[g2].commit_oid == y
                },
        decreases n1 - f,
    {
        let my = nodes2[f].commit_oid;
        proof {
            assert(repo.commits@[n1idx@[f as int] as int].oid.num == my.num);
            assert(my.num != 0);
        }
        let mut raw: Vec<NonZeroOid> = Vec::new();
        let mut g2: usize = 0;
        while g2 < n1
            invariant
                g2 <= n1,
                nodes2@.len() == n1,
                forall|y: NonZeroOid|
                    #[trigger] raw@.contains(y) <==> exists|g3: int|
                        0 <= g3 < g2 && (#[trigger] nodes2@[g3]).parent == Some(my) && nodes2@[
                            g3
                        ].commit_oid == y,
                forall|k: int|
                    0 <= k < raw@.len() ==> has_commit(repo.commits@, (#[trigger] raw@[k]).num),
            decreases n1 - g2,
        {
            let is_child = match &nodes2[g2].parent {
                Some(p) => p.num == my.num,
                None => false,
            };
            proof {
                if is_child {
                    assert(nodes2@[g2 as int].parent matches Some(pp) && pp.num == my.num);
                }
            }
            if is_child {
                proof {
                    assert(nodes2@[g2 as int].parent == Some(my)) by {
                        let pp = nodes2@[g2 as int].parent->0;
                        assert(pp.num == my.num);
                        assert(my.num != 0);
                    }
                }
                let ghost r0 = raw@;
                let ch = nodes2[g2].commit_oid;
                raw.push(ch);
                proof {
                    assert(raw@[r0.len() as int] == ch);
                    assert forall|y: NonZeroOid| #[trigger]
                        raw@.contains(y) <==> exists|g3: int|
                            0 <= g3 < g2 + 1 && (#[trigger] nodes2@[g3]).parent == Some(my)
                                && nodes2@[g3].commit_oid == y by {
                        if raw@.contains(y) {
                            let w = choose|w: int| 0 <= w < raw@.len() && raw@[w] == y;
                            if w < r0.len() {
                                assert(r0[w] == y);
                                assert(r0.contains(y));
                            } else {
                                assert(y == ch);
                                assert((#[trigger] nodes2@[g2 as int]).parent == Some(my)
                                    && nodes2@[g2 as int].commit_oid == y);
                            }
                        }
                        if exists|g3: int|
                            0 <= g3 < g2 + 1 && (#[trigger] nodes2@[g3]).parent == Some(my)
                                && nodes2@[g3].commit_oid == y {
                            let g3 = choose|g3: int|
                                0 <= g3 < g2 + 1 && (#[trigger] nodes2@[g3]).parent == Some(my)
                                    && nodes2@[g3].commit_oid == y;
                            if g3 < g2 {
                                assert(r0.contains(y));
                                let w = choose|w: int| 0 <= w < r0.len() && r0[w] == y;
                                assert(raw@[w] == y);
                            } else {
                                assert(raw@[r0.len() as int] == y);
                            }
                        }
                    }
                    assert(has_commit(repo.commits@, ch.num)) by {
                        let ri2 = n1idx@[g2 as int];
                        assert(repo.commits@[ri2 as int].oid.num == ch.num);
                    }
                }
            }
            g2 += 1;
        }
        let sorted = sort_children(repo, &raw);
        let nd2 = &nodes2[f];
        nodes3.push(
            Node {
                commit_oid: nd2.commit_oid,
                parent: match &nd2.parent {
                    Some(p) => Some(*p),
                    None => None,
                },
                children: sorted,
                is_main: nd2.is_main,
                is_visible: nd2.is_visible,
            },
        );
        f += 1;
    }
    nodes3
}

#[verifier::loop_isolation(false)]
#[verifier::rlimit(100)]
#[verifier::spinoff_prover]
pub fn make_graph(
    repo: &Repo,
    merge_base_db: &mut MergeBaseDb,
    event_replayer: &EventReplayer,
    event_cursor: EventCursor,
    head_oid: &HeadOid,
    main_branch_oid: &MainBranchOid,
    branch_oids: &BranchOids,
    include_hidden: bool,
) -> (g: CommitGraph)
    requires
        repo.wf(),
        old(merge_base_db).wf(*repo),
        head_oid.0 matches Some(h) ==> has_commit(repo.commits@, h.num),
        has_commit(repo.commits@, main_branch_oid.0.num),
        forall|k: int|
            0 <= k < branch_oids.0@.len() ==> has_commit(
                repo.commits@,
                #[trigger] branch_oids.0@[k],
            ),
    ensures
        final(merge_base_db).wf(*repo),
        graph_wf(*repo, g.nodes@),
        forall|k: int|
            0 <= k < g.nodes@.len() ==> (#[trigger] g.nodes@[k]).is_visible == visible_at(
                event_replayer.events(),
                event_cursor.event_id - 1,
                g.nodes@[k].commit_oid.num,
                head_num_of(*head_oid),
                branch_oids.0@,
                g.nodes@[k].is_main,
            ),
        forall|k: int, a: int, b: int|
            0 <= k < g.nodes@.len() && 0 <= a < b < g.nodes@[k].children@.len() ==> child_le(
                *repo,
                #[trigger] g.nodes@[k].children@[a],
                #[trigger] g.nodes@[k].children@[b],
            ),
        forall|k: int|
            0 <= k < g.nodes@.len() && (#[trigger] g.nodes@[k]).parent is Some ==> g.nodes@[
                node_idx_of(g.nodes@, g.nodes@[k].parent->0.num)
            ].children@.contains(g.nodes@[k].commit_oid),
        forall|o: u64|
            has_commit(repo.commits@, o) && #[trigger] vis_prefix(
                event_replayer.events(),
                event_cursor.event_id - 1,
                o,
            ) == Some(CommitVisibility::Visible) ==> graph_has(g.nodes@, o),
        graph_has(g.nodes@, main_branch_oid.0.num),
{
    let ghost events = event_replayer.events();
    let ghost ncur: int = event_cursor.event_id - 1;
    let main_num = main_branch_oid.0.num;
    let head_num: u64 = match head_oid.0 {
        Some(h) => h.num,
        None => 0,
    };
    let seeds = collect_seeds(
        repo,
        event_replayer,
        event_cursor,
        head_oid,
        main_branch_oid,
        branch_oids,
    );
    let (member, main_seg) = gather_ancestors(repo, merge_base_db, &seeds, main_num);
    let tmp = stage_entries(
        repo,
        event_replayer,
        event_cursor,
        head_num,
        branch_oids,
        &member,
        &main_seg,
    );
    let keep = sweep_keep(&tmp, include_hidden);
    proof {
        assert forall|t: int|
            0 <= t < tmp@.len() implies ((#[trigger] tmp@[t]).repo_idx as int)
                < repo.commits@.len() && repo.commits@[tmp@[t].repo_idx as int].oid.num == tmp@[
            t
        ].oid by {
            assert(tmp_entry_ok(
                *repo,
                events,
                ncur,
                head_num,
                branch_oids.0@,
                member@,
                main_seg@,
                tmp@[t],
            ));
        }
    }
    let assembled = assemble_nodes(repo, &tmp, &keep);
    let nodes1 = assembled.0;
    let n1idx = assembled.1;
    proof {
        assert forall|f: int|
            0 <= f < nodes1@.len() implies ((#[trigger] n1idx@[f]) as int) < repo.commits@.len()
                && repo.commits@[n1idx@[f] as int].oid.num == nodes1@[f].commit_oid.num by {
            let nd = nodes1@[f];
            assert(repo.commits@[n1idx@[f] as int].oid.num == nd.commit_oid.num);
        }
    }
    let nodes2 = resolve_parents(repo, &nodes1, &n1idx);
    proof {
        assert forall|gx: int|
            0 <= gx < nodes2@.len() implies ((#[trigger] n1idx@[gx]) as int)
                < repo.commits@.len() && repo.commits@[n1idx@[gx] as int].oid.num == nodes2@[
            gx
        ].commit_oid.num && nodes2@[gx].commit_oid.num != 0 by {
            assert(nodes2@[gx].commit_oid == nodes1@[gx].commit_oid);
            assert(repo.commits@[n1idx@[gx] as int].oid.num == nodes1@[gx].commit_oid.num);
            assert(nodes1@[gx].commit_oid.num != 0);
        }
    }
    let nodes3 = build_children(repo, &nodes2, &n1idx);
    let g = CommitGraph { nodes: nodes3 };
    proof {
        assert(head_num == head_num_of(*head_oid));
        // every node's id sits at its recorded table position
        assert forall|ff: int| 0 <= ff < g.nodes@.len() implies has_commit(
            repo.commits@,
            (#[trigger] g.nodes@[ff]).commit_oid.num,
        ) && idx_of(repo.commits@, g.nodes@[ff].commit_oid.num) == n1idx@[ff] by {
            let o = g.nodes@[ff].commit_oid.num;
            assert(g.nodes@[ff].commit_oid == nodes2@[ff].commit_oid);
            assert(nodes2@[ff].commit_oid == nodes1@[ff].commit_oid);
            assert(repo.commits@[n1idx@[ff] as int].oid.num == o);
            assert(has_commit(repo.commits@, o));
            let w = idx_of(repo.commits@, o);
            assert(0 <= w < repo.commits@.len() && repo.commits@[w].oid.num == o);
            assert(w == n1idx@[ff] as int);
        }
        assert forall|k1: int, k2: int| 0 <= k1 < k2 < g.nodes@.len() implies idx_of(
            repo.commits@,
            (#[trigger] g.nodes@[k1]).commit_oid.num,
        ) < idx_of(repo.commits@, (#[trigger] g.nodes@[k2]).commit_oid.num) by {
            assert(n1idx@[k1] < n1idx@[k2]);
        }
        // parent edges
        assert forall|k: int|
            0 <= k < g.nodes@.len() && (#[trigger] g.nodes@[k]).parent is Some implies {
            let p = g.nodes@[k].parent->0;
            let c = repo.commits@[idx_of(repo.commits@, g.nodes@[k].commit_oid.num)];
            &&& graph_has(g.nodes@, p.num)
            &&& c.parents@.len() > 0
            &&& c.parents@[0] == p
        } by {
            let p = g.nodes@[k].parent->0;
            assert(g.nodes@[k].parent == nodes2@[k].parent);
            assert(graph_has(nodes1@, p.num));
            let w = choose|w: int|
                0 <= w < nodes1@.len() && (#[trigger] nodes1@[w]).commit_oid.num == p.num;
            assert(g.nodes@[w].commit_oid == nodes2@[w].commit_oid && nodes2@[w].commit_oid
                == nodes1@[w].commit_oid);
            assert(g.nodes@[w].commit_oid.num == p.num);
            assert(graph_has(g.nodes@, p.num));
            assert(g.nodes@[k].commit_oid == nodes2@[k].commit_oid);
        }
        // children edges: mirrored by the child's parent edge
        assert forall|k: int, cix: int|
            0 <= k < g.nodes@.len() && 0 <= cix < g.nodes@[k].children@.len() implies {
            let ch = #[trigger] g.nodes@[k].children@[cix];
            &&& graph_has(g.nodes@, ch.num)
            &&& g.nodes@[node_idx_of(g.nodes@, ch.num)].parent == Some(g.nodes@[k].commit_oid)
        } by {
            let ch = g.nodes@[k].children@[cix];
            assert(g.nodes@[k].children@.contains(ch));
            let g3 = choose|g3: int|
                0 <= g3 < nodes2@.len() && (#[trigger] nodes2@[g3]).parent == Some(
                    nodes2@[k].commit_oid,
                ) && nodes2@[g3].commit_oid == ch;
            assert(g.nodes@[g3].commit_oid == ch);
            assert(graph_has(g.nodes@, ch.num));
            let w = node_idx_of(g.nodes@, ch.num);
            assert(0 <= w < g.nodes@.len() && g.nodes@[w].commit_oid.num == ch.num);
            assert(idx_of(repo.commits@, g.nodes@[w].commit_oid.num) == n1idx@[w]);
            assert(idx_of(repo.commits@, g.nodes@[g3].commit_oid.num) == n1idx@[g3]);
            if w != g3 {
                if w < g3 {
                    assert(n1idx@[w] < n1idx@[g3]);
                } else {
                    assert(n1idx@[g3] < n1idx@[w]);
                }
                assert(false);
            }
            assert(g.nodes@[w].parent == nodes2@[w].parent);
            assert(g.nodes@[k].commit_oid == nodes2@[k].commit_oid);
        }
        // the parent's children list holds the child
        assert forall|k: int|
            0 <= k < g.nodes@.len() && (#[trigger] g.nodes@[k]).parent is Some implies g.nodes@[
            node_idx_of(g.nodes@, g.nodes@[k].parent->0.num)
        ].children@.contains(g.nodes@[k].commit_oid) by {
            let p = g.nodes@[k].parent->0;
            assert(g.nodes@[k].parent == nodes2@[k].parent);
            assert(graph_has(nodes1@, p.num));
            let w0 = choose|w0: int|
                0 <= w0 < nodes1@.len() && (#[trigger] nodes1@[w0]).commit_oid.num == p.num;
            assert(g.nodes@[w0].commit_oid == nodes2@[w0].commit_oid && nodes2@[w0].commit_oid
                == nodes1@[w0].commit_oid);
            assert(graph_has(g.nodes@, p.num));
            let w = node_idx_of(g.nodes@, p.num);
            assert(0 <= w < g.nodes@.len() && g.nodes@[w].commit_oid.num == p.num);
            assert(nodes2@[w].commit_oid == g.nodes@[w].commit_oid);
            assert(nodes2@[w].commit_oid == p);
            assert((#[trigger] nodes2@[k]).parent == Some(nodes2@[w].commit_oid) && nodes2@[
                k
            ].commit_oid == g.nodes@[k].commit_oid);
            assert(g.nodes@[w].children@.contains(g.nodes@[k].commit_oid));
        }
        // visibility policy
        assert forall|k: int| 0 <= k < g.nodes@.len() implies (#[trigger] g.nodes@[k]).is_visible
            == visible_at(
            events,
            ncur,
            g.nodes@[k].commit_oid.num,
            head_num,
            branch_oids.0@,
            g.nodes@[k].is_main,
        ) by {
            assert(g.nodes@[k].commit_oid == nodes2@[k].commit_oid && nodes2@[k].commit_oid
                == nodes1@[k].commit_oid);
            assert(g.nodes@[k].is_visible == nodes1@[k].is_visible && g.nodes@[k].is_main
                == nodes1@[k].is_main);
            assert(node_from_tmp(tmp@, keep@, nodes1@[k], n1idx@[k]));
            let t = choose|t: int|
                0 <= t < tmp@.len() && keep@[t] && (#[trigger] tmp@[t]).oid == nodes1@[
                    k
                ].commit_oid.num && tmp@[t].repo_idx == n1idx@[k] && tmp@[t].is_main == nodes1@[
                    k
                ].is_main && tmp@[t].is_visible == nodes1@[k].is_visible;
            assert(tmp_entry_ok(
                *repo,
                events,
                ncur,
                head_num,
                branch_oids.0@,
                member@,
                main_seg@,
                tmp@[t],
            ));
        }
        // the main branch tip has a node
        assert(graph_has(g.nodes@, main_num)) by {
            assert(seeds@.contains(main_num));
            let sw = choose|sw: int| 0 <= sw < seeds@.len() && seeds@[sw] == main_num;
            assert(member@.contains(seeds@[sw]));
            let mi = idx_of(repo.commits@, main_num);
            assert(repo.commits@[mi].oid.num == main_num);
            assert(tmp_has_idx(tmp@, mi));
            let tt = choose|tt: int| 0 <= tt < tmp@.len() && (#[trigger] tmp@[tt]).repo_idx == mi;
            assert(tmp_entry_ok(
                *repo,
                events,
                ncur,
                head_num,
                branch_oids.0@,
                member@,
                main_seg@,
                tmp@[tt],
            ));
            assert(tmp@[tt].oid == main_num);
            assert(tmp@[tt].is_main);
            assert(tmp@[tt].is_visible);
            assert(keep@[tt]);
            assert(graph_has(nodes1@, main_num));
            let w = choose|w: int|
                0 <= w < nodes1@.len() && (#[trigger] nodes1@[w]).commit_oid.num == main_num;
            assert(g.nodes@[w].commit_oid == nodes2@[w].commit_oid && nodes2@[w].commit_oid
                == nodes1@[w].commit_oid);
            assert(g.nodes@[w].commit_oid.num == main_num);
        }
        // every commit the replayer marks visible has a node
        assert forall|o: u64|
            has_commit(repo.commits@, o) && #[trigger] vis_prefix(events, ncur, o) == Some(
                CommitVisibility::Visible,
            ) implies graph_has(g.nodes@, o) by {
            assert(seeds@.contains(o));
            let sw = choose|sw: int| 0 <= sw < seeds@.len() && seeds@[sw] == o;
            assert(member@.contains(seeds@[sw]));
            let oi = idx_of(repo.commits@, o);
            assert(repo.commits@[oi].oid.num == o);
            assert(tmp_has_idx(tmp@, oi));
            let tt = choose|tt: int| 0 <= tt < tmp@.len() && (#[trigger] tmp@[tt]).repo_idx == oi;
            assert(tmp_entry_ok(
                *repo,
                events,
                ncur,
                head_num,
                branch_oids.0@,
                member@,
                main_seg@,
                tmp@[tt],
            ));
            assert(tmp@[tt].oid == o);
            assert(tmp@[tt].is_visible);
            assert(keep@[tt]);
            assert(graph_has(nodes1@, o));
            let w = choose|w: int|
                0 <= w < nodes1@.len() && (#[trigger] nodes1@[w]).commit_oid.num == o;
            assert(g.nodes@[w].commit_oid == nodes2@[w].commit_oid && nodes2@[w].commit_oid
                == nodes1@[w].commit_oid);
            assert(g.nodes@[w].commit_oid.num == o);
        }
    }
    g
}


/// The first id of a chain is the id of the commit it starts from.
pub open spec fn chain_oids_first(commits: Seq<crate::repo::CommitData>, i: int, oid: u64) -> bool {
    crate::mergebase::chain_oids(commits, i).len() > 0 && crate::mergebase::chain_oids(
        commits,
        i,
    )[0] == oid
}

/// Unfold one step of the chain to expose its first id.
pub proof fn reveal_chain_first(commits: Seq<crate::repo::CommitData>, i: int)
    requires
        0 <= i < commits.len(),
    ensures
        chain_oids_first(commits, i, commits[i].oid.num),
{
    let c = crate::mergebase::chain_oids(commits, i);
    if commits[i].parents@.len() == 0 {
        assert(c[0] == commits[i].oid.num);
    } else {
        let j = idx_of(commits, commits[i].parents@[0].num);
        if 0 <= j < i {
            assert(c == seq![commits[i].oid.num] + crate::mergebase::chain_oids(commits, j));
            assert(c[0] == commits[i].oid.num);
        } else {
            assert(c[0] == commits[i].oid.num);
        }
    }
}

/// Two graph positions holding the same commit are the same position.
pub proof fn lemma_graph_unique(repo: Repo, nodes: Seq<Node>, k1: int, k2: int)
    requires
        graph_wf(repo, nodes),
        0 <= k1 < nodes.len(),
        0 <= k2 < nodes.len(),
        nodes[k1].commit_oid.num == nodes[k2].commit_oid.num,
    ensures
        k1 == k2,
{
    if k1 < k2 {
        assert(idx_of(repo.commits@, nodes[k1].commit_oid.num) < idx_of(
            repo.commits@,
            nodes[k2].commit_oid.num,
        ));
        assert(false);
    } else if k2 < k1 {
        assert(idx_of(repo.commits@, nodes[k2].commit_oid.num) < idx_of(
            repo.commits@,
            nodes[k1].commit_oid.num,
        ));
        assert(false);
    }
}

/// A child's node stands strictly after its parent's node.
pub proof fn lemma_child_after_parent(repo: Repo, nodes: Seq<Node>, k: int, c: int)
    requires
        repo.wf(),
        graph_wf(repo, nodes),
        0 <= k < nodes.len(),
        0 <= c < nodes[k].children@.len(),
    ensures
        k < node_idx_of(nodes, nodes[k].children@[c].num) < nodes.len(),
{
    let ch = nodes[k].children@[c];
    assert(graph_has(nodes, ch.num) && nodes[node_idx_of(nodes, ch.num)].parent == Some(
        nodes[k].commit_oid,
    ));
    let w = node_idx_of(nodes, ch.num);
    assert(0 <= w < nodes.len() && nodes[w].commit_oid.num == ch.num);
    assert(nodes[w].parent is Some);
    let iw = idx_of(repo.commits@, nodes[w].commit_oid.num);
    let cw = repo.commits@[iw];
    assert(cw.parents@.len() > 0 && cw.parents@[0] == nodes[k].commit_oid);
    assert(has_commit(repo.commits@, nodes[w].commit_oid.num));
    assert(0 <= iw < repo.commits@.len() && repo.commits@[iw].oid.num == nodes[w].commit_oid.num);
    assert(crate::repo::parent_before(repo.commits@, iw, cw.parents@[0]));
    let j = choose|j: int|
        0 <= j < iw && (#[trigger] repo.commits@[j]).oid.num == cw.parents@[0].num;
    assert(has_commit(repo.commits@, nodes[k].commit_oid.num));
    let ik = idx_of(repo.commits@, nodes[k].commit_oid.num);
    assert(0 <= ik < repo.commits@.len() && repo.commits@[ik].oid.num == nodes[k].commit_oid.num);
    assert(ik == j);
    assert(ik < iw);
    if w <= k {
        if w == k {
            assert(ik == iw);
        } else {
            assert(idx_of(repo.commits@, nodes[w].commit_oid.num) < idx_of(
                repo.commits@,
                nodes[k].commit_oid.num,
            ));
        }
        assert(false);
    }
}

/// The outcome of turning user-supplied hashes into commits.
pub enum ResolveCommitsResult {
    /// Every hash named a commit.
    Found { commits: Vec<NonZeroOid> },
    /// The first hash that named no commit.
    CommitNotFound { commit: String },
}

/// Whether a hash names a commit of the table (by its full hexadecimal
/// rendering).
pub open spec fn hash_resolves(commits: Seq<crate::repo::CommitData>, hash: Seq<char>) -> bool {
    exists|i: int| 0 <= i < commits.len() && crate::oid::hex_text((#[trigger] commits[i]).oid.num)
        == hash
}

/// Turn user-supplied hashes into commits, or report the first hash that
/// names none.
#[verifier::loop_isolation(false)]
pub fn resolve_commits(repo: &Repo, hashes: &Vec<String>) -> (r: ResolveCommitsResult)
    ensures
        match r {
            ResolveCommitsResult::Found { commits } => {
                &&& commits@.len() == hashes@.len()
                &&& forall|j: int|
                    0 <= j < commits@.len() ==> has_commit(
                        repo.commits@,
                        (#[trigger] commits@[j]).num,
                    ) && crate::oid::hex_text(commits@[j].num) == hashes@[j]@
            },
            ResolveCommitsResult::CommitNotFound { commit } => exists|j: int|
                0 <= j < hashes@.len() && (#[trigger] hashes@[j]@) == commit@ && !hash_resolves(
                    repo.commits@,
                    hashes@[j]@,
                ) && (forall|j2: int| 0 <= j2 < j ==> hash_resolves(repo.commits@, hashes@[j2]@)),
        },
{
    let nh = hashes.len();
    let mut commits: Vec<NonZeroOid> = Vec::new();
    let mut j: usize = 0;
    while j < nh
        invariant
            j <= nh,
            commits@.len() == j,
            forall|j2: int|
                0 <= j2 < j ==> has_commit(repo.commits@, (#[trigger] commits@[j2]).num)
                    && crate::oid::hex_text(commits@[j2].num) == hashes@[j2]@,
        decreases nh - j,
    {
        let hash = &hashes[j];
        let nc = repo.commits.len();
        let mut i: usize = 0;
        let mut found = false;
        while !found && i < nc
            invariant
                i <= nc,
                nc == repo.commits@.len(),
                !found ==> forall|i2: int|
                    0 <= i2 < i ==> crate::oid::hex_text((#[trigger] repo.commits@[i2]).oid.num)
                        != hash@,
                found ==> i < nc && crate::oid::hex_text(repo.commits@[i as int].oid.num) == hash@,
            decreases nc - i, if found {
                0int
            } else {
                1int
            },
        {
            let text = repo.commits[i].oid.to_text();
            if text == *hash {
                found = true;
            } else {
                i += 1;
            }
        }
        if found {
            commits.push(repo.commits[i].oid);
        } else {
            proof {
                assert(!hash_resolves(repo.commits@, hashes@[j as int]@));
                assert forall|j2: int| 0 <= j2 < j implies hash_resolves(
                    repo.commits@,
                    hashes@[j2]@,
                ) by {
                    assert(has_commit(repo.commits@, commits@[j2].num));
                    let w = idx_of(repo.commits@, commits@[j2].num);
                    assert(0 <= w < repo.commits@.len() && repo.commits@[w].oid.num == commits@[
                        j2
                    ].num);
                    assert(crate::oid::hex_text((#[trigger] repo.commits@[w]).oid.num)
                        == hashes@[j2]@);
                }
            }
            return ResolveCommitsResult::CommitNotFound { commit: hash.clone() };
        }
        j += 1;
    }
    ResolveCommitsResult::Found { commits }
}

/// Node positions never outrun table positions.
proof fn lemma_graph_idx_lower(repo: Repo, nodes: Seq<Node>, k: int)
    requires
        graph_wf(repo, nodes),
        0 <= k < nodes.len(),
    ensures
        idx_of(repo.commits@, nodes[k].commit_oid.num) >= k,
    decreases k,
{
    if k > 0 {
        lemma_graph_idx_lower(repo, nodes, k - 1);
        assert(idx_of(repo.commits@, nodes[k - 1].commit_oid.num) < idx_of(
            repo.commits@,
            nodes[k].commit_oid.num,
        ));
    }
}

/// A graph never holds more nodes than the table holds commits.
pub proof fn lemma_graph_size(repo: Repo, nodes: Seq<Node>)
    requires
        graph_wf(repo, nodes),
    ensures
        nodes.len() <= repo.commits@.len(),
{
    if nodes.len() > 0 {
        let k = nodes.len() - 1;
        lemma_graph_idx_lower(repo, nodes, k);
        assert(has_commit(repo.commits@, nodes[k].commit_oid.num));
        let w = idx_of(repo.commits@, nodes[k].commit_oid.num);
        assert(0 <= w < repo.commits@.len() && repo.commits@[w].oid.num == nodes[k].commit_oid.num);
    }
}

/// A parent's node stands strictly before its child's node.
pub proof fn lemma_parent_node_before(repo: Repo, nodes: Seq<Node>, k: int)
    requires
        repo.wf(),
        graph_wf(repo, nodes),
        0 <= k < nodes.len(),
        nodes[k].parent is Some,
    ensures
        0 <= node_idx_of(nodes, nodes[k].parent->0.num) < k,
{
    let p = nodes[k].parent->0;
    assert(graph_has(nodes, p.num));
    let w = node_idx_of(nodes, p.num);
    assert(0 <= w < nodes.len() && nodes[w].commit_oid.num == p.num);
    let ik = idx_of(repo.commits@, nodes[k].commit_oid.num);
    assert(has_commit(repo.commits@, nodes[k].commit_oid.num));
    assert(0 <= ik < repo.commits@.len() && repo.commits@[ik].oid.num == nodes[k].commit_oid.num);
    let ck = repo.commits@[ik];
    assert(ck.parents@.len() > 0 && ck.parents@[0] == p);
    assert(crate::repo::parent_before(repo.commits@, ik, ck.parents@[0]));
    let j = choose|j: int|
        0 <= j < ik && (#[trigger] repo.commits@[j]).oid.num == ck.parents@[0].num;
    assert(has_commit(repo.commits@, p.num));
    let iw = idx_of(repo.commits@, p.num);
    assert(0 <= iw < repo.commits@.len() && repo.commits@[iw].oid.num == p.num);
    assert(iw == j);
    assert(idx_of(repo.commits@, nodes[w].commit_oid.num) < idx_of(
        repo.commits@,
        nodes[k].commit_oid.num,
    ));
    if w >= k {
        if w == k {
            assert(false);
        } else {
            assert(idx_of(repo.commits@, nodes[k].commit_oid.num) < idx_of(
                repo.commits@,
                nodes[w].commit_oid.num,
            ));
            assert(false);
        }
    }
}

/// A non-empty graph's first node is a root: its parent edge would have
/// to point before position zero.
pub proof fn lemma_first_node_parentless(repo: Repo, nodes: Seq<Node>)
    requires
        repo.wf(),
        graph_wf(repo, nodes),
        nodes.len() > 0,
    ensures
        nodes[0].parent is None,
{
    if nodes[0].parent is Some {
        lemma_parent_node_before(repo, nodes, 0);
    }
}

/// The node of a commit that is known to be in the graph.
pub open spec fn node_of(nodes: Seq<Node>, oid: u64) -> Node {
    nodes[node_idx_of(nodes, oid)]
}

/// Whether a list of commits holds the given id.
pub open spec fn oids_include(r: Seq<NonZeroOid>, oid: u64) -> bool {
    exists|q: int| 0 <= q < r.len() && (#[trigger] r[q]).num == oid
}

} // verus!
