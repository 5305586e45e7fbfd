//! Hiding commits when explicitly requested by the user (as opposed to
//! automatically as the result of a rewrite operation).

use vstd::prelude::*;
use crate::eventlog::{
    lemma_vis_prefix_hidden_suffix, lemma_vis_prefix_visible_suffix, log_capacity, log_wf,
    vis_prefix, CommitVisibility, Event, EventLogDb, EventReplayer,
};
use crate::graph::{
    graph_has, graph_wf, hash_resolves, make_graph, node_idx_of, node_of, oids_include,
    resolve_commits, BranchOids, CommitGraph, HeadOid, MainBranchOid, Node, ResolveCommitsResult,
};
use crate::mergebase::MergeBaseDb;
use crate::oid::{hex_text, NonZeroOid};
use crate::repo::{has_commit, idx_of, CommitData, RefEntry, Repo};

verus! {

/// A short human description of a commit: its id, a space, and its message
/// when the repository still holds it.
pub open spec fn describe_spec(commits: Seq<CommitData>, oid: u64) -> Seq<char> {
    if has_commit(commits, oid) {
        hex_text(oid) + seq![' '] + commits[idx_of(commits, oid)].message@
    } else {
        hex_text(oid)
    }
}

/// Render a short human description of a commit.
pub fn friendly_describe(repo: &Repo, oid: NonZeroOid) -> (s: String)
    requires
        repo.commits_wf(),
    ensures
        s@ == describe_spec(repo.commits@, oid.num),
{
    let mut s = oid.to_text();
    match repo.find_commit(oid.num) {
        Some(c) => {
            proof {
                reveal_strlit(" ");
                assert(" "@ =~= seq![' ']);
            }
            s.append(" ");
            s.append(c.message.as_str());
            proof {
                assert(s@ =~= describe_spec(repo.commits@, oid.num));
            }
        },
        None => {},
    }
    s
}

/// The depth-first visit order of the subtree rooted at node `k`: the
/// node itself, then each child's subtree in the children's listed order.
pub open spec fn dfs_subtree(nodes: Seq<Node>, k: int) -> Seq<int>
    decreases nodes.len() - k, nodes[k].children@.len() + 1,
{
    if !(0 <= k < nodes.len()) {
        Seq::empty()
    } else {
        seq![k] + dfs_children(nodes, k, 0)
    }
}

/// The visit order of node `k`'s children from position `i` on.
pub open spec fn dfs_children(nodes: Seq<Node>, k: int, i: int) -> Seq<int>
    decreases nodes.len() - k, nodes[k].children@.len() - i,
{
    if !(0 <= k < nodes.len()) || !(0 <= i < nodes[k].children@.len()) {
        Seq::empty()
    } else {
        let j = node_idx_of(nodes, nodes[k].children@[i].num);
        (if k < j < nodes.len() {
            dfs_subtree(nodes, j)
        } else {
            Seq::empty()
        }) + dfs_children(nodes, k, i + 1)
    }
}

/// The visit order of a whole traversal: the subtrees of the given
/// commits' nodes, in the commits' given order, from position `j` on.
/// A commit without a node contributes nothing.
pub open spec fn dfs_roots(nodes: Seq<Node>, inputs: Seq<NonZeroOid>, j: int) -> Seq<int>
    decreases inputs.len() - j,
{
    if !(0 <= j < inputs.len()) {
        Seq::empty()
    } else {
        (if graph_has(nodes, inputs[j].num) {
            dfs_subtree(nodes, node_idx_of(nodes, inputs[j].num))
        } else {
            Seq::empty()
        }) + dfs_roots(nodes, inputs, j + 1)
    }
}

/// What a traversal collects: walk the visit order, and append each
/// node's commit the first time it is seen, when it carries the wanted
/// visibility.
pub open spec fn collect_fold(
    nodes: Seq<Node>,
    want: bool,
    acc: Seq<NonZeroOid>,
    order: Seq<int>,
) -> Seq<NonZeroOid>
    decreases order.len(),
{
    if order.len() == 0 {
        acc
    } else {
        let k = order[0];
        let acc2 = if 0 <= k < nodes.len() && nodes[k].is_visible == want && !oids_include(
            acc,
            nodes[k].commit_oid.num,
        ) {
            acc.push(nodes[k].commit_oid)
        } else {
            acc
        };
        collect_fold(nodes, want, acc2, order.subrange(1, order.len() as int))
    }
}

/// Collecting over a concatenated order is collecting over its parts in
/// turn.
proof fn lemma_fold_append(
    nodes: Seq<Node>,
    want: bool,
    acc: Seq<NonZeroOid>,
    a: Seq<int>,
    b: Seq<int>,
)
    ensures
        collect_fold(nodes, want, acc, a + b) == collect_fold(
            nodes,
            want,
            collect_fold(nodes, want, acc, a),
            b,
        ),
    decreases a.len(),
{
    if a.len() == 0 {
        assert(a + b =~= b);
    } else {
        let ab = a + b;
        assert(ab[0] == a[0]);
        assert(ab.subrange(1, ab.len() as int) =~= a.subrange(1, a.len() as int) + b);
        let k = a[0];
        let acc2 = if 0 <= k < nodes.len() && nodes[k].is_visible == want && !oids_include(
            acc,
            nodes[k].commit_oid.num,
        ) {
            acc.push(nodes[k].commit_oid)
        } else {
            acc
        };
        lemma_fold_append(nodes, want, acc2, a.subrange(1, a.len() as int), b);
    }
}

/// A commit already collected stays collected.
proof fn lemma_fold_keeps(
    nodes: Seq<Node>,
    want: bool,
    acc: Seq<NonZeroOid>,
    order: Seq<int>,
    o: u64,
)
    requires
        oids_include(acc, o),
    ensures
        oids_include(collect_fold(nodes, want, acc, order), o),
    decreases order.len(),
{
    if order.len() > 0 {
        let k = order[0];
        let acc2 = if 0 <= k < nodes.len() && nodes[k].is_visible == want && !oids_include(
            acc,
            nodes[k].commit_oid.num,
        ) {
            acc.push(nodes[k].commit_oid)
        } else {
            acc
        };
        assert(oids_include(acc2, o)) by {
            let w = choose|w: int| 0 <= w < acc.len() && (#[trigger] acc[w]).num == o;
            assert((#[trigger] acc2[w]).num == o);
        }
        lemma_fold_keeps(nodes, want, acc2, order.subrange(1, order.len() as int), o);
    }
}

/// A node of the visit order with the wanted visibility is collected.
proof fn lemma_fold_hits(
    nodes: Seq<Node>,
    want: bool,
    acc: Seq<NonZeroOid>,
    order: Seq<int>,
    k: int,
)
    requires
        order.contains(k),
        0 <= k < nodes.len(),
        nodes[k].is_visible == want,
    ensures
        oids_include(collect_fold(nodes, want, acc, order), nodes[k].commit_oid.num),
    decreases order.len(),
{
    let h = order[0];
    let acc2 = if 0 <= h < nodes.len() && nodes[h].is_visible == want && !oids_include(
        acc,
        nodes[h].commit_oid.num,
    ) {
        acc.push(nodes[h].commit_oid)
    } else {
        acc
    };
    if h == k {
        assert(oids_include(acc2, nodes[k].commit_oid.num)) by {
            if oids_include(acc, nodes[k].commit_oid.num) {
                let w = choose|w: int|
                    0 <= w < acc.len() && (#[trigger] acc[w]).num == nodes[k].commit_oid.num;
                assert((#[trigger] acc2[w]).num == nodes[k].commit_oid.num);
            } else {
                assert((#[trigger] acc2[acc.len() as int]).num == nodes[k].commit_oid.num);
            }
        }
        lemma_fold_keeps(
            nodes,
            want,
            acc2,
            order.subrange(1, order.len() as int),
            nodes[k].commit_oid.num,
        );
    } else {
        let w = choose|w: int| 0 <= w < order.len() && order[w] == k;
        assert(order.subrange(1, order.len() as int)[w - 1] == k);
        assert(order.subrange(1, order.len() as int).contains(k));
        lemma_fold_hits(nodes, want, acc2, order.subrange(1, order.len() as int), k);
    }
}

/// Everything a traversal collects is a graph node's commit with the
/// wanted visibility, and nothing is collected twice.
proof fn lemma_fold_sound(
    repo: Repo,
    nodes: Seq<Node>,
    want: bool,
    acc: Seq<NonZeroOid>,
    order: Seq<int>,
)
    requires
        repo.wf(),
        graph_wf(repo, nodes),
        forall|q: int|
            0 <= q < acc.len() ==> graph_has(nodes, (#[trigger] acc[q]).num) && node_of(
                nodes,
                acc[q].num,
            ).is_visible == want,
        forall|q1: int, q2: int| 0 <= q1 < q2 < acc.len() ==> acc[q1].num != acc[q2].num,
    ensures
        ({
            let r = collect_fold(nodes, want, acc, order);
            &&& forall|q: int|
                0 <= q < r.len() ==> graph_has(nodes, (#[trigger] r[q]).num) && node_of(
                    nodes,
                    r[q].num,
                ).is_visible == want
            &&& forall|q1: int, q2: int| 0 <= q1 < q2 < r.len() ==> r[q1].num != r[q2].num
            &&& forall|q: int| 0 <= q < acc.len() ==> r[q] == acc[q]
            &&& acc.len() <= r.len()
        }),
    decreases order.len(),
{
    if order.len() > 0 {
        let k = order[0];
        if 0 <= k < nodes.len() && nodes[k].is_visible == want && !oids_include(
            acc,
            nodes[k].commit_oid.num,
        ) {
            let acc2 = acc.push(nodes[k].commit_oid);
            assert(graph_has(nodes, nodes[k].commit_oid.num));
            crate::graph::lemma_graph_unique(
                repo,
                nodes,
                k,
                node_idx_of(nodes, nodes[k].commit_oid.num),
            );
            assert forall|q: int| 0 <= q < acc2.len() implies graph_has(
                nodes,
                (#[trigger] acc2[q]).num,
            ) && node_of(nodes, acc2[q].num).is_visible == want by {
                if q < acc.len() {
                    assert(acc2[q] == acc[q]);
                }
            }
            assert forall|q1: int, q2: int| 0 <= q1 < q2 < acc2.len() implies acc2[q1].num
                != acc2[q2].num by {
                if q2 < acc.len() {
                } else {
                    assert(acc2[q2].num == nodes[k].commit_oid.num);
                    assert((#[trigger] acc[q1]).num != nodes[k].commit_oid.num);
                }
            }
            lemma_fold_sound(repo, nodes, want, acc2, order.subrange(1, order.len() as int));
        } else {
            lemma_fold_sound(repo, nodes, want, acc, order.subrange(1, order.len() as int));
        }
    }
}

/// The visit order of a traversal reaches each given commit's own node.
proof fn lemma_dfs_roots_hit(nodes: Seq<Node>, inputs: Seq<NonZeroOid>, j0: int, j: int)
    requires
        0 <= j0 <= j < inputs.len(),
        graph_has(nodes, inputs[j].num),
    ensures
        dfs_roots(nodes, inputs, j0).contains(node_idx_of(nodes, inputs[j].num)),
    decreases j - j0,
{
    let idx = node_idx_of(nodes, inputs[j].num);
    let a: Seq<int> = if graph_has(nodes, inputs[j0].num) {
        dfs_subtree(nodes, node_idx_of(nodes, inputs[j0].num))
    } else {
        Seq::empty()
    };
    let b = dfs_roots(nodes, inputs, j0 + 1);
    assert(dfs_roots(nodes, inputs, j0) == a + b);
    if j0 == j {
        assert(0 <= idx < nodes.len());
        assert(a[0] == idx);
        assert((a + b)[0] == idx);
        assert((a + b).contains(idx));
    } else {
        lemma_dfs_roots_hit(nodes, inputs, j0 + 1, j);
        let w = choose|w: int| 0 <= w < b.len() && b[w] == idx;
        assert((a + b)[a.len() + w] == idx);
        assert((a + b).contains(idx));
    }
}

/// Distinct commits that all have nodes in a graph are no more numerous
/// than the nodes.
proof fn lemma_distinct_in_graph(repo: Repo, nodes: Seq<Node>, r: Seq<NonZeroOid>)
    requires
        repo.wf(),
        graph_wf(repo, nodes),
        forall|q: int| 0 <= q < r.len() ==> graph_has(nodes, (#[trigger] r[q]).num),
        forall|q1: int, q2: int| 0 <= q1 < q2 < r.len() ==> r[q1].num != r[q2].num,
    ensures
        r.len() <= nodes.len(),
{
    let idxs = r.map_values(|c: NonZeroOid| node_idx_of(nodes, c.num));
    assert forall|q1: int, q2: int| 0 <= q1 < q2 < idxs.len() implies idxs[q1] != idxs[q2] by {
        let w1 = node_idx_of(nodes, r[q1].num);
        let w2 = node_idx_of(nodes, r[q2].num);
        assert(0 <= w1 < nodes.len() && nodes[w1].commit_oid.num == r[q1].num);
        assert(0 <= w2 < nodes.len() && nodes[w2].commit_oid.num == r[q2].num);
    }
    assert(idxs.no_duplicates());
    idxs.unique_seq_to_set();
    assert forall|x: int| idxs.to_set().contains(x) implies vstd::set_lib::set_int_range(
        0,
        nodes.len() as int,
    ).contains(x) by {
        let w = choose|w: int| 0 <= w < idxs.len() && idxs[w] == x;
        assert(0 <= node_idx_of(nodes, r[w].num) < nodes.len());
    }
    assert(idxs.to_set().subset_of(vstd::set_lib::set_int_range(0, nodes.len() as int)));
    vstd::set_lib::lemma_int_range(0, nodes.len() as int);
    vstd::set_lib::lemma_len_subset(
        idxs.to_set(),
        vstd::set_lib::set_int_range(0, nodes.len() as int),
    );
}

/// Whether a list of commits holds the given id, as executable code.
fn oids_contain(v: &Vec<NonZeroOid>, num: u64) -> (b: bool)
    ensures
        b == oids_include(v@, num),
{
    let n = v.len();
    let mut i: usize = 0;
    while i < n
        invariant
            i <= n,
            n == v@.len(),
            forall|k: int| 0 <= k < i ==> (#[trigger] v@[k]).num != num,
        decreases n - i,
    {
        if v[i].num == num {
            proof {
                assert((#[trigger] v@[i as int]).num == num);
            }
            return true;
        }
        i += 1;
    }
    false
}

/// One step of the traversal: visit node `k`, then its children in order.
#[verifier::loop_isolation(false)]
fn dfs_collect(
    repo: &Repo,
    graph: &CommitGraph,
    want: bool,
    k: usize,
    r: &mut Vec<NonZeroOid>,
)
    requires
        repo.wf(),
        graph_wf(*repo, graph.nodes@),
        k < graph.nodes@.len(),
    ensures
        final(r)@ == collect_fold(graph.nodes@, want, old(r)@, dfs_subtree(graph.nodes@, k as int)),
    decreases graph.nodes@.len() - k, graph.nodes@[k as int].children@.len() + 1,
{
    let ghost nodes = graph.nodes@;
    let ghost acc0 = r@;
    let nd_visible = graph.nodes[k].is_visible;
    let nd_oid = graph.nodes[k].commit_oid;
    if nd_visible == want {
        if !oids_contain(r, nd_oid.num) {
            r.push(nd_oid);
        }
    }
    proof {
        let ord = dfs_subtree(nodes, k as int);
        assert(ord == seq![k as int] + dfs_children(nodes, k as int, 0));
        assert(ord[0] == k as int);
        assert(ord.subrange(1, ord.len() as int) =~= dfs_children(nodes, k as int, 0));
    }
    dfs_collect_children(repo, graph, want, k, 0, r);
}

/// Visit the subtrees of node `k`'s children from position `i` on.
#[verifier::loop_isolation(false)]
fn dfs_collect_children(
    repo: &Repo,
    graph: &CommitGraph,
    want: bool,
    k: usize,
    i: usize,
    r: &mut Vec<NonZeroOid>,
)
    requires
        repo.wf(),
        graph_wf(*repo, graph.nodes@),
        k < graph.nodes@.len(),
    ensures
        final(r)@ == collect_fold(
            graph.nodes@,
            want,
            old(r)@,
            dfs_children(graph.nodes@, k as int, i as int),
        ),
    decreases graph.nodes@.len() - k, graph.nodes@[k as int].children@.len() - i,
{
    let ghost nodes = graph.nodes@;
    let nc = graph.nodes[k].children.len();
    if i >= nc {
        proof {
            assert(dfs_children(nodes, k as int, i as int) =~= Seq::<int>::empty());
        }
        return ;
    }
    let ch = graph.nodes[k].children[i];
    proof {
        assert(graph_has(nodes, ch.num));
        crate::graph::lemma_child_after_parent(*repo, nodes, k as int, i as int);
    }
    let j = match graph.find_node_index(ch.num) {
        Some(j) => j,
        None => {
            proof {
                assert(false);
            }
            return ;
        },
    };
    proof {
        crate::graph::lemma_graph_unique(*repo, nodes, j as int, node_idx_of(nodes, ch.num));
        assert(j as int == node_idx_of(nodes, ch.num));
        assert((k as int) < (j as int) && (j as int) < nodes.len());
    }
    let ghost acc0 = r@;
    dfs_collect(repo, graph, want, j, r);
    proof {
        let a = dfs_subtree(nodes, j as int);
        let b = dfs_children(nodes, k as int, i + 1);
        assert(dfs_children(nodes, k as int, i as int) == a + b);
        lemma_fold_append(nodes, want, acc0, a, b);
    }
    dfs_collect_children(repo, graph, want, k, i + 1, r);
}

/// Collect the given commits and their graph descendants that carry the
/// wanted visibility: a depth-first walk takes the commits in their given
/// order and each node's children in their listed order, and appends each
/// qualifying commit at its first visit. The result is exactly that of
/// the fold over the walk's visit order.
#[verifier::loop_isolation(false)]
pub fn recurse_on_commits(
    repo: &Repo,
    graph: &CommitGraph,
    commits: &Vec<NonZeroOid>,
    want_visible: bool,
) -> (r: Vec<NonZeroOid>)
    requires
        repo.wf(),
        graph_wf(*repo, graph.nodes@),
    ensures
        r@ == collect_fold(
            graph.nodes@,
            want_visible,
            Seq::empty(),
            dfs_roots(graph.nodes@, commits@, 0),
        ),
        r@.len() <= graph.nodes@.len(),
        forall|q: int|
            0 <= q < r@.len() ==> graph_has(graph.nodes@, (#[trigger] r@[q]).num) && node_of(
                graph.nodes@,
                r@[q].num,
            ).is_visible == want_visible,
        forall|q1: int, q2: int| 0 <= q1 < q2 < r@.len() ==> r@[q1].num != r@[q2].num,
        forall|j: int|
            0 <= j < commits@.len() && graph_has(graph.nodes@, (#[trigger] commits@[j]).num)
                && node_of(graph.nodes@, commits@[j].num).is_visible == want_visible
                ==> oids_include(r@, commits@[j].num),
{
    let ghost nodes = graph.nodes@;
    let mut r: Vec<NonZeroOid> = Vec::new();
    let nj = commits.len();
    let mut j: usize = 0;
    while j < nj
        invariant
            j <= nj,
            collect_fold(nodes, want_visible, r@, dfs_roots(nodes, commits@, j as int))
                == collect_fold(
                nodes,
                want_visible,
                Seq::empty(),
                dfs_roots(nodes, commits@, 0),
            ),
        decreases nj - j,
    {
        let ghost acc0 = r@;
        let ghost b = dfs_roots(nodes, commits@, j + 1);
        match graph.find_node_index(commits[j].num) {
            Some(k) => {
                proof {
                    assert(graph_has(nodes, commits@[j as int].num));
                    crate::graph::lemma_graph_unique(
                        *repo,
                        nodes,
                        k as int,
                        node_idx_of(nodes, commits@[j as int].num),
                    );
                    assert(dfs_roots(nodes, commits@, j as int) == dfs_subtree(nodes, k as int)
                        + b);
                }
                dfs_collect(repo, graph, want_visible, k, &mut r);
                proof {
                    lemma_fold_append(nodes, want_visible, acc0, dfs_subtree(nodes, k as int), b);
                }
            },
            None => {
                proof {
                    assert(dfs_roots(nodes, commits@, j as int) =~= Seq::<int>::empty() + b);
                    assert(Seq::<int>::empty() + b =~= b);
                }
            },
        }
        j += 1;
    }
    proof {
        assert(dfs_roots(nodes, commits@, nj as int) =~= Seq::<int>::empty());
        lemma_fold_sound(
            *repo,
            nodes,
            want_visible,
            Seq::empty(),
            dfs_roots(nodes, commits@, 0),
        );
        lemma_distinct_in_graph(*repo, nodes, r@);
        assert forall|jq: int|
            0 <= jq < commits@.len() && graph_has(nodes, (#[trigger] commits@[jq]).num)
                && node_of(nodes, commits@[jq].num).is_visible == want_visible
                implies oids_include(r@, commits@[jq].num) by {
            lemma_dfs_roots_hit(nodes, commits@, 0, jq);
            let k = node_idx_of(nodes, commits@[jq].num);
            assert(0 <= k < nodes.len() && nodes[k].commit_oid.num == commits@[jq].num);
            lemma_fold_hits(
                nodes,
                want_visible,
                Seq::empty(),
                dfs_roots(nodes, commits@, 0),
                k,
            );
        }
    }
    r
}

/// The commit a full hexadecimal hash names (meaningful when the hash
/// resolves, since renderings are unique).
pub open spec fn resolved_num(commits: Seq<CommitData>, h: Seq<char>) -> u64 {
    commits[choose|i: int| 0 <= i < commits.len() && hex_text((#[trigger] commits[i]).oid.num) == h].oid.num
}

/// The commits the given hashes name, in the hashes' order.
pub open spec fn resolved_seq(commits: Seq<CommitData>, hashes: Seq<String>) -> Seq<NonZeroOid> {
    Seq::new(hashes.len(), |j: int| NonZeroOid { num: resolved_num(commits, hashes[j]@) })
}

/// The text of each output line.
pub open spec fn lines_of(v: Seq<String>) -> Seq<Seq<char>> {
    v.map_values(|s: String| s@)
}

/// The report lines printed for one touched commit: the headline with its
/// description; the no-effect notice exactly when the commit already had
/// the wanted visibility at the pre-append cursor; and the hint naming the
/// inverse command.
pub open spec fn report_block(
    repo: Repo,
    log: Seq<Event>,
    n: int,
    t: NonZeroOid,
    to_hidden: bool,
) -> Seq<Seq<char>> {
    let first = (if to_hidden {
        "Hid commit: "@
    } else {
        "Unhid commit: "@
    }) + describe_spec(repo.commits@, t.num);
    let hint = (if to_hidden {
        "To unhide this commit, run: git unhide "@
    } else {
        "To hide this commit, run: git hide "@
    }) + hex_text(t.num);
    if vis_prefix(log, n, t.num) == Some(
        if to_hidden {
            CommitVisibility::Hidden
        } else {
            CommitVisibility::Visible
        },
    ) {
        seq![
            first,
            (if to_hidden {
                "(It was already hidden, so this operation had no effect.)"@
            } else {
                "(It was not hidden, so this operation had no effect.)"@
            }),
            hint,
        ]
    } else {
        seq![first, hint]
    }
}

/// The report lines for the touched commits from position `j` on.
pub open spec fn report_lines(
    repo: Repo,
    log: Seq<Event>,
    n: int,
    targets: Seq<NonZeroOid>,
    to_hidden: bool,
    j: int,
) -> Seq<Seq<char>>
    decreases targets.len() - j,
{
    if !(0 <= j < targets.len()) {
        Seq::empty()
    } else {
        report_block(repo, log, n, targets[j], to_hidden) + report_lines(
            repo,
            log,
            n,
            targets,
            to_hidden,
            j + 1,
        )
    }
}

/// The commit a hide or unhide event is about.
pub open spec fn hide_subject(e: Event) -> u64 {
    match e {
        Event::HideEvent { commit_oid, .. } => commit_oid.num,
        Event::UnhideEvent { commit_oid, .. } => commit_oid.num,
        _ => 0,
    }
}

/// What hiding (or unhiding) leaves behind: failure exactly when some hash
/// names no commit, in which case nothing is appended; on success, one
/// fresh transaction of hide (or unhide) events, after which each touched
/// commit is hidden (or visible) at the new default cursor. Without
/// `--recursive` the touched commits are exactly the named ones, in order.
pub open spec fn hide_post(
    repo: Repo,
    old_log: Seq<Event>,
    old_tx: u64,
    new_log: Seq<Event>,
    new_tx: u64,
    hashes: Seq<String>,
    now: u64,
    recursive: bool,
    to_hidden: bool,
    exit: isize,
) -> bool {
    &&& (exit == 0 || exit == 1)
    &&& (exit == 1 <==> exists|j: int|
        0 <= j < hashes.len() && !hash_resolves(repo.commits@, (#[trigger] hashes[j])@))
    &&& (exit == 1 ==> new_log == old_log && new_tx == old_tx)
    &&& (exit == 0 ==> {
        &&& new_tx == old_tx + 1
        &&& old_log.len() <= new_log.len()
        &&& (forall|i: int| 0 <= i < old_log.len() ==> new_log[i] == old_log[i])
        &&& (forall|i: int|
            old_log.len() <= i < new_log.len() ==> {
                let e = #[trigger] new_log[i];
                &&& (to_hidden ==> e matches Event::HideEvent { .. })
                &&& (!to_hidden ==> e matches Event::UnhideEvent { .. })
                &&& e.tx_id() == old_tx + 1
                &&& e.timestamp_of() == now
                &&& vis_prefix(new_log, new_log.len() as int, hide_subject(e)) == Some(
                    if to_hidden {
                        CommitVisibility::Hidden
                    } else {
                        CommitVisibility::Visible
                    },
                )
            })
        &&& (!recursive ==> new_log.len() == old_log.len() + hashes.len() && forall|j: int|
            0 <= j < hashes.len() ==> hex_text(
                hide_subject(#[trigger] new_log[old_log.len() + j]),
            ) == hashes[j]@)
    })
}

/// Print the per-commit report: for each touched commit its headline, the
/// no-effect notice when it already had the wanted visibility, and the
/// hint naming the inverse command.
#[verifier::loop_isolation(false)]
#[verifier::rlimit(60)]
fn report_targets(
    repo: &Repo,
    event_replayer: &EventReplayer,
    cursor: crate::eventlog::EventCursor,
    targets: &Vec<NonZeroOid>,
    to_hidden: bool,
    output: &mut Vec<String>,
)
    requires
        repo.wf(),
    ensures
        final(output)@.len() >= old(output)@.len(),
        forall|i: int| 0 <= i < old(output)@.len() ==> final(output)@[i] == old(output)@[i],
        lines_of(final(output)@) == lines_of(old(output)@) + report_lines(
            *repo,
            event_replayer.events(),
            cursor.event_id - 1,
            targets@,
            to_hidden,
            0,
        ),
{
    let ghost log0 = event_replayer.events();
    let ghost len0: int = cursor.event_id - 1;
    let nt = targets.len();
    let mut j: usize = 0;
    while j < nt
        invariant
            j <= nt,
            nt == targets@.len(),
            output@.len() >= old(output)@.len(),
            forall|i: int| 0 <= i < old(output)@.len() ==> output@[i] == old(output)@[i],
            lines_of(output@) + report_lines(*repo, log0, len0, targets@, to_hidden, j as int)
                == lines_of(old(output)@) + report_lines(
                *repo,
                log0,
                len0,
                targets@,
                to_hidden,
                0,
            ),
        decreases nt - j,
    {
        let ghost out_j = output@;
        let target = targets[j];
        let mut line = String::from_str(if to_hidden {
            "Hid commit: "
        } else {
            "Unhid commit: "
        });
        let desc = friendly_describe(repo, target);
        line.append(desc.as_str());
        output.push(line);
        let already = event_replayer.get_cursor_commit_visibility(cursor, target);
        let mut notice = false;
        if to_hidden {
            match already {
                Some(CommitVisibility::Hidden) => {
                    output.push(
                        String::from_str("(It was already hidden, so this operation had no effect.)"),
                    );
                    notice = true;
                },
                _ => {},
            }
        } else {
            match already {
                Some(CommitVisibility::Visible) => {
                    output.push(
                        String::from_str("(It was not hidden, so this operation had no effect.)"),
                    );
                    notice = true;
                },
                _ => {},
            }
        }
        let mut hint = String::from_str(if to_hidden {
            "To unhide this commit, run: git unhide "
        } else {
            "To hide this commit, run: git hide "
        });
        let text = target.to_text();
        hint.append(text.as_str());
        output.push(hint);
        proof {
            let block = report_block(*repo, log0, len0, targets@[j as int], to_hidden);
            assert(already == vis_prefix(log0, len0, targets@[j as int].num));
            if notice {
                assert(block.len() == 3);
                assert(lines_of(output@) =~= lines_of(out_j) + block);
            } else {
                assert(block.len() == 2);
                assert(lines_of(output@) =~= lines_of(out_j) + block);
            }
            assert(report_lines(*repo, log0, len0, targets@, to_hidden, j as int) == block
                + report_lines(*repo, log0, len0, targets@, to_hidden, j + 1));
            assert(lines_of(output@) + report_lines(*repo, log0, len0, targets@, to_hidden, j + 1)
                =~= lines_of(out_j) + report_lines(*repo, log0, len0, targets@, to_hidden, j as int));
        }
        j += 1;
    }
    proof {
        assert(report_lines(*repo, log0, len0, targets@, to_hidden, nt as int)
            =~= Seq::<Seq<char>>::empty());
        assert(lines_of(output@) =~= lines_of(output@) + Seq::<Seq<char>>::empty());
    }
}

/// The shared body of `hide_commits` and `unhide`.
#[verifier::loop_isolation(false)]
#[verifier::rlimit(100)]
#[verifier::spinoff_prover]
fn hide_or_unhide(
    repo: &Repo,
    event_log_db: &mut EventLogDb,
    merge_base_db: &mut MergeBaseDb,
    now: u64,
    hashes: &Vec<String>,
    recursive: bool,
    to_hidden: bool,
    output: &mut Vec<String>,
) -> (exit: isize)
    requires
        repo.wf(),
        log_wf(old(event_log_db)@),
        old(event_log_db)@.len() + hashes@.len() + repo.commits@.len() < log_capacity(),
        old(event_log_db).tx_counter() < u64::MAX,
        old(merge_base_db).wf(*repo),
    ensures
        final(merge_base_db).wf(*repo),
        hide_post(
            *repo,
            old(event_log_db)@,
            old(event_log_db).tx_counter(),
            final(event_log_db)@,
            final(event_log_db).tx_counter(),
            hashes@,
            now,
            recursive,
            to_hidden,
            exit,
        ),
        final(output)@.len() >= old(output)@.len(),
        forall|i: int| 0 <= i < old(output)@.len() ==> final(output)@[i] == old(output)@[i],
        exit == 1 ==> final(output)@.len() == old(output)@.len() + 1 && (exists|j: int|
            0 <= j < hashes@.len() && !hash_resolves(repo.commits@, (#[trigger] hashes@[j])@) && (
            forall|j2: int| 0 <= j2 < j ==> hash_resolves(repo.commits@, hashes@[j2]@)) && final(output)@.last()@ == "Commit not found: "@ + hashes@[j]@),
        (exit == 0 && recursive && to_hidden) ==> forall|j: int, i: int|
            0 <= j < hashes@.len() && 0 <= i < repo.commits@.len() && hex_text(
                (#[trigger] repo.commits@[i]).oid.num,
            ) == (#[trigger] hashes@[j])@ && vis_prefix(
                old(event_log_db)@,
                old(event_log_db)@.len() as int,
                repo.commits@[i].oid.num,
            ) == Some(CommitVisibility::Visible) ==> exists|q: int|
                old(event_log_db)@.len() <= q < final(event_log_db)@.len() && hide_subject(
                    #[trigger] final(event_log_db)@[q],
                ) == repo.commits@[i].oid.num,
        (exit == 0 && !recursive) ==> lines_of(final(output)@) == lines_of(old(output)@)
            + report_lines(
            *repo,
            old(event_log_db)@,
            old(event_log_db)@.len() as int,
            resolved_seq(repo.commits@, hashes@),
            to_hidden,
            0,
        ),
        (exit == 0 && recursive) ==> exists|g: Seq<Node>|
            {
                let picked = collect_fold(
                    g,
                    to_hidden,
                    Seq::empty(),
                    dfs_roots(g, resolved_seq(repo.commits@, hashes@), 0),
                );
                &&& #[trigger] crate::graph::graph_for(
                    *repo,
                    old(event_log_db)@,
                    old(event_log_db)@.len() as int,
                    repo.head_oid,
                    repo.branch_nums(),
                    g,
                )
                &&& final(event_log_db)@.len() == old(event_log_db)@.len() + picked.len()
                &&& forall|q: int|
                    0 <= q < picked.len() ==> hide_subject(
                        #[trigger] final(event_log_db)@[old(event_log_db)@.len() + q],
                    ) == picked[q].num
                &&& lines_of(final(output)@) == lines_of(old(output)@) + report_lines(
                    *repo,
                    old(event_log_db)@,
                    old(event_log_db)@.len() as int,
                    picked,
                    to_hidden,
                    0,
                )
            },
{
    let ghost mut gnodes: Seq<Node> = Seq::empty();
    let event_replayer = EventReplayer::from_event_log_db(event_log_db);
    let cursor = event_replayer.make_default_cursor();
    let commits = match resolve_commits(repo, hashes) {
        ResolveCommitsResult::Found { commits } => commits,
        ResolveCommitsResult::CommitNotFound { commit } => {
            proof {
                let j = choose|j: int|
                    0 <= j < hashes@.len() && (#[trigger] hashes@[j]@) == commit@
                        && !hash_resolves(repo.commits@, hashes@[j]@) && (forall|j2: int|
                        0 <= j2 < j ==> hash_resolves(repo.commits@, hashes@[j2]@));
            }
            let mut line = String::from_str("Commit not found: ");
            line.append(commit.as_str());
            output.push(line);
            return 1;
        },
    };
    proof {
        assert forall|j: int| 0 <= j < hashes@.len() implies hash_resolves(
            repo.commits@,
            (#[trigger] hashes@[j])@,
        ) by {
            assert(has_commit(repo.commits@, commits@[j].num));
            let w = idx_of(repo.commits@, commits@[j].num);
            assert(0 <= w < repo.commits@.len() && repo.commits@[w].oid.num == commits@[j].num);
            assert(hex_text(repo.commits@[w].oid.num) == hashes@[j]@);
        }
        assert(commits@ =~= resolved_seq(repo.commits@, hashes@)) by {
            assert forall|j: int| 0 <= j < hashes@.len() implies commits@[j] == resolved_seq(
                repo.commits@,
                hashes@,
            )[j] by {
                let i = choose|i: int|
                    0 <= i < repo.commits@.len() && hex_text(
                        (#[trigger] repo.commits@[i]).oid.num,
                    ) == hashes@[j]@;
                crate::oid::lemma_hex_text_injective(commits@[j].num, repo.commits@[i].oid.num);
                assert(commits@[j].num == resolved_num(repo.commits@, hashes@[j]@));
                assert(commits@[j] == NonZeroOid { num: commits@[j].num });
            }
        }
    }
    let targets: Vec<NonZeroOid> = if recursive {
        let head = repo.get_head_info();
        let main = repo.get_main_branch_oid();
        let branches = repo.branch_oids();
        proof {
            assert forall|k: int| 0 <= k < branches@.len() implies has_commit(
                repo.commits@,
                #[trigger] branches@[k],
            ) by {
                assert(branches@[k] == repo.branches@.map_values(|b: crate::repo::RefEntry| b.oid.num)[k]);
                assert(branches@[k] == repo.branches@[k].oid.num);
            }
        }
        let graph = make_graph(
            repo,
            merge_base_db,
            &event_replayer,
            cursor,
            &HeadOid(head),
            &MainBranchOid(main),
            &BranchOids(branches),
            false,
        );
        proof {
            crate::graph::lemma_graph_size(*repo, graph.nodes@);
        }
        let collected = recurse_on_commits(repo, &graph, &commits, to_hidden);
        proof {
            if to_hidden {
                assert forall|j: int, i: int|
                    0 <= j < hashes@.len() && 0 <= i < repo.commits@.len() && hex_text(
                        (#[trigger] repo.commits@[i]).oid.num,
                    ) == (#[trigger] hashes@[j])@ && vis_prefix(
                        old(event_log_db)@,
                        old(event_log_db)@.len() as int,
                        repo.commits@[i].oid.num,
                    ) == Some(CommitVisibility::Visible) implies crate::graph::oids_include(
                    collected@,
                    repo.commits@[i].oid.num,
                ) by {
                    let o = repo.commits@[i].oid.num;
                    // the named hash resolves to this very commit
                    assert(hex_text(commits@[j].num) == hashes@[j]@);
                    crate::oid::lemma_hex_text_injective(commits@[j].num, o);
                    assert(commits@[j].num == o);
                    // a visible commit has a node in the graph, and it is visible
                    assert(graph_has(graph.nodes@, o));
                    let k = node_idx_of(graph.nodes@, o);
                    assert(0 <= k < graph.nodes@.len() && graph.nodes@[k].commit_oid.num == o);
                    assert(graph.nodes@[k].is_visible);
                    assert(node_of(graph.nodes@, o).is_visible);
                    assert(graph_has(graph.nodes@, (commits@[j]).num) && node_of(
                        graph.nodes@,
                        commits@[j].num,
                    ).is_visible == to_hidden);
                }
            }
        }
        proof {
            gnodes = graph.nodes@;
            assert(event_replayer.events() == old(event_log_db)@);
            assert(cursor.event_id - 1 == old(event_log_db)@.len() as int);
            assert(crate::graph::graph_for(
                *repo,
                old(event_log_db)@,
                old(event_log_db)@.len() as int,
                repo.head_oid,
                repo.branch_nums(),
                gnodes,
            ));
            assert(collected@ == collect_fold(
                gnodes,
                to_hidden,
                Seq::empty(),
                dfs_roots(gnodes, resolved_seq(repo.commits@, hashes@), 0),
            ));
        }
        collected
    } else {
        commits
    };
    let tx = event_log_db.make_transaction_id(now, if to_hidden {
        "hide"
    } else {
        "unhide"
    });
    let nt = targets.len();
    let mut events: Vec<Event> = Vec::new();
    let mut j: usize = 0;
    while j < nt
        invariant
            j <= nt,
            nt == targets@.len(),
            events@.len() == j,
            forall|j2: int|
                0 <= j2 < j ==> (#[trigger] events@[j2]) == (if to_hidden {
                    Event::HideEvent {
                        timestamp: now,
                        event_tx_id: tx,
                        commit_oid: targets@[j2],
                    }
                } else {
                    Event::UnhideEvent {
                        timestamp: now,
                        event_tx_id: tx,
                        commit_oid: targets@[j2],
                    }
                }),
        decreases nt - j,
    {
        if to_hidden {
            events.push(
                Event::HideEvent { timestamp: now, event_tx_id: tx, commit_oid: targets[j] },
            );
        } else {
            events.push(
                Event::UnhideEvent { timestamp: now, event_tx_id: tx, commit_oid: targets[j] },
            );
        }
        j += 1;
    }
    let ghost old_log = event_log_db@;
    event_log_db.add_events(events);
    proof {
        assert(event_log_db@.len() == old_log.len() + nt);
        assert forall|i: int| old_log.len() <= i < event_log_db@.len() implies {
            let e = #[trigger] event_log_db@[i];
            &&& (to_hidden ==> e matches Event::HideEvent { .. })
            &&& (!to_hidden ==> e matches Event::UnhideEvent { .. })
            &&& e.tx_id() == old(event_log_db).tx_counter() + 1
            &&& vis_prefix(event_log_db@, event_log_db@.len() as int, hide_subject(e)) == Some(
                if to_hidden {
                    CommitVisibility::Hidden
                } else {
                    CommitVisibility::Visible
                },
            )
        } by {
            let e = event_log_db@[i];
            assert(e == events@[i - old_log.len()]);
            let o = hide_subject(e);
            assert(e.touches_commit(o));
            assert forall|k2: int|
                old_log.len() <= k2 < event_log_db@.len() && (
                #[trigger] event_log_db@[k2]).touches_commit(o) implies event_log_db@[
                k2
            ].makes_visible(o) == !to_hidden by {
                assert(event_log_db@[k2] == events@[k2 - old_log.len()]);
            }
            if to_hidden {
                lemma_vis_prefix_hidden_suffix(
                    event_log_db@,
                    old_log.len() as int,
                    event_log_db@.len() as int,
                    o,
                );
            } else {
                lemma_vis_prefix_visible_suffix(
                    event_log_db@,
                    old_log.len() as int,
                    event_log_db@.len() as int,
                    o,
                );
            }
        }
    }
    proof {
        assert forall|o: u64| crate::graph::oids_include(targets@, o) implies exists|q: int|
            old_log.len() <= q < event_log_db@.len() && hide_subject(
                #[trigger] event_log_db@[q],
            ) == o by {
            let w = choose|w: int| 0 <= w < targets@.len() && (#[trigger] targets@[w]).num == o;
            assert(event_log_db@[old_log.len() + w] == events@[w]);
            assert(hide_subject(event_log_db@[old_log.len() + w]) == o);
        }
    }
    // report what was done
    let ghost log0 = old(event_log_db)@;
    let ghost len0 = old(event_log_db)@.len() as int;
    proof {
        assert(event_replayer.events() == log0);
        assert(cursor.event_id - 1 == len0);
    }
    report_targets(repo, &event_replayer, cursor, &targets, to_hidden, output);
    proof {
        assert(report_lines(*repo, log0, len0, targets@, to_hidden, nt as int)
            =~= Seq::<Seq<char>>::empty());
        assert(lines_of(output@) =~= lines_of(output@) + Seq::<Seq<char>>::empty());
        assert(lines_of(output@) == lines_of(old(output)@) + report_lines(
            *repo,
            log0,
            len0,
            targets@,
            to_hidden,
            0,
        ));
        if recursive {
            let picked = collect_fold(
                gnodes,
                to_hidden,
                Seq::empty(),
                dfs_roots(gnodes, resolved_seq(repo.commits@, hashes@), 0),
            );
            assert(picked == targets@);
            assert(event_log_db@.len() == len0 + picked.len());
            assert forall|q: int| 0 <= q < picked.len() implies hide_subject(
                #[trigger] event_log_db@[len0 + q],
            ) == picked[q].num by {
                assert(event_log_db@[len0 + q] == events@[q]);
            }
        }
    }
    0
}

/// Hide the commits named on the command line; with `recursive`, also their
/// visible descendants.
pub fn hide_commits(
    repo: &Repo,
    event_log_db: &mut EventLogDb,
    merge_base_db: &mut MergeBaseDb,
    now: u64,
    hashes: Vec<String>,
    recursive: bool,
    output: &mut Vec<String>,
) -> (exit: isize)
    requires
        repo.wf(),
        log_wf(old(event_log_db)@),
        old(event_log_db)@.len() + hashes@.len() + repo.commits@.len() < log_capacity(),
        old(event_log_db).tx_counter() < u64::MAX,
        old(merge_base_db).wf(*repo),
    ensures
        final(merge_base_db).wf(*repo),
        hide_post(
            *repo,
            old(event_log_db)@,
            old(event_log_db).tx_counter(),
            final(event_log_db)@,
            final(event_log_db).tx_counter(),
            hashes@,
            now,
            recursive,
            true,
            exit,
        ),
        final(output)@.len() >= old(output)@.len(),
        forall|i: int| 0 <= i < old(output)@.len() ==> final(output)@[i] == old(output)@[i],
        exit == 1 ==> final(output)@.len() == old(output)@.len() + 1 && (exists|j: int|
            0 <= j < hashes@.len() && !hash_resolves(repo.commits@, (#[trigger] hashes@[j])@) && (
            forall|j2: int| 0 <= j2 < j ==> hash_resolves(repo.commits@, hashes@[j2]@)) && final(output)@.last()@ == "Commit not found: "@ + hashes@[j]@),
        (exit == 0 && recursive) ==> forall|j: int, i: int|
            0 <= j < hashes@.len() && 0 <= i < repo.commits@.len() && hex_text(
                (#[trigger] repo.commits@[i]).oid.num,
            ) == (#[trigger] hashes@[j])@ && vis_prefix(
                old(event_log_db)@,
                old(event_log_db)@.len() as int,
                repo.commits@[i].oid.num,
            ) == Some(CommitVisibility::Visible) ==> exists|q: int|
                old(event_log_db)@.len() <= q < final(event_log_db)@.len() && hide_subject(
                    #[trigger] final(event_log_db)@[q],
                ) == repo.commits@[i].oid.num,
        (exit == 0 && !recursive) ==> lines_of(final(output)@) == lines_of(old(output)@)
            + report_lines(
            *repo,
            old(event_log_db)@,
            old(event_log_db)@.len() as int,
            resolved_seq(repo.commits@, hashes@),
            true,
            0,
        ),
        (exit == 0 && recursive) ==> exists|g: Seq<Node>|
            {
                let picked = collect_fold(
                    g,
                    true,
                    Seq::empty(),
                    dfs_roots(g, resolved_seq(repo.commits@, hashes@), 0),
                );
                &&& #[trigger] crate::graph::graph_for(
                    *repo,
                    old(event_log_db)@,
                    old(event_log_db)@.len() as int,
                    repo.head_oid,
                    repo.branch_nums(),
                    g,
                )
                &&& final(event_log_db)@.len() == old(event_log_db)@.len() + picked.len()
                &&& forall|q: int|
                    0 <= q < picked.len() ==> hide_subject(
                        #[trigger] final(event_log_db)@[old(event_log_db)@.len() + q],
                    ) == picked[q].num
                &&& lines_of(final(output)@) == lines_of(old(output)@) + report_lines(
                    *repo,
                    old(event_log_db)@,
                    old(event_log_db)@.len() as int,
                    picked,
                    true,
                    0,
                )
            },
{
    hide_or_unhide(repo, event_log_db, merge_base_db, now, &hashes, recursive, true, output)
}

/// Unhide the commits named on the command line; with `recursive`, also
/// their hidden descendants.
pub fn unhide(
    repo: &Repo,
    event_log_db: &mut EventLogDb,
    merge_base_db: &mut MergeBaseDb,
    now: u64,
    hashes: Vec<String>,
    recursive: bool,
    output: &mut Vec<String>,
) -> (exit: isize)
    requires
        repo.wf(),
        log_wf(old(event_log_db)@),
        old(event_log_db)@.len() + hashes@.len() + repo.commits@.len() < log_capacity(),
        old(event_log_db).tx_counter() < u64::MAX,
        old(merge_base_db).wf(*repo),
    ensures
        final(merge_base_db).wf(*repo),
        hide_post(
            *repo,
            old(event_log_db)@,
            old(event_log_db).tx_counter(),
            final(event_log_db)@,
            final(event_log_db).tx_counter(),
            hashes@,
            now,
            recursive,
            false,
            exit,
        ),
        final(output)@.len() >= old(output)@.len(),
        forall|i: int| 0 <= i < old(output)@.len() ==> final(output)@[i] == old(output)@[i],
        exit == 1 ==> final(output)@.len() == old(output)@.len() + 1 && (exists|j: int|
            0 <= j < hashes@.len() && !hash_resolves(repo.commits@, (#[trigger] hashes@[j])@) && (
            forall|j2: int| 0 <= j2 < j ==> hash_resolves(repo.commits@, hashes@[j2]@)) && final(output)@.last()@ == "Commit not found: "@ + hashes@[j]@),
        (exit == 0 && !recursive) ==> lines_of(final(output)@) == lines_of(old(output)@)
            + report_lines(
            *repo,
            old(event_log_db)@,
            old(event_log_db)@.len() as int,
            resolved_seq(repo.commits@, hashes@),
            false,
            0,
        ),
        (exit == 0 && recursive) ==> exists|g: Seq<Node>|
            {
                let picked = collect_fold(
                    g,
                    false,
                    Seq::empty(),
                    dfs_roots(g, resolved_seq(repo.commits@, hashes@), 0),
                );
                &&& #[trigger] crate::graph::graph_for(
                    *repo,
                    old(event_log_db)@,
                    old(event_log_db)@.len() as int,
                    repo.head_oid,
                    repo.branch_nums(),
                    g,
                )
                &&& final(event_log_db)@.len() == old(event_log_db)@.len() + picked.len()
                &&& forall|q: int|
                    0 <= q < picked.len() ==> hide_subject(
                        #[trigger] final(event_log_db)@[old(event_log_db)@.len() + q],
                    ) == picked[q].num
                &&& lines_of(final(output)@) == lines_of(old(output)@) + report_lines(
                    *repo,
                    old(event_log_db)@,
                    old(event_log_db)@.len() as int,
                    picked,
                    false,
                    0,
                )
            },
{
    hide_or_unhide(repo, event_log_db, merge_base_db, now, &hashes, recursive, false, output)
}

} // verus!
