//! Display a graph of the commits the user has worked on recently.
//!
//! The set of commits still being worked on is inferred from the event log;
//! see the event log module. The renderer walks the graph from its roots
//! and draws one line per commit with connector lines between them.

use vstd::prelude::*;
use crate::eventlog::{log_wf, oid_list_contains, EventLogDb, EventReplayer};
use crate::graph::{
    graph_has, graph_wf, head_num_of, make_graph, node_idx_of, node_of, BranchOids, CommitGraph,
    HeadOid, MainBranchOid, Node,
};
use crate::hiding::friendly_describe;
use crate::mergebase::{merge_base_spec, MergeBaseDb};
use crate::repo::{has_commit, idx_of, CommitData, Repo};
use crate::styled::{
    printable_styled_string, st_append, st_append_plain, st_bold, st_new, st_plain, styled_text,
    Glyphs,
};

verus! {

/// The order independent subgraph roots are sorted by: where the merge
/// base of two roots is one of them, the topologically earlier one comes
/// first; otherwise by committer time ascending, ties broken by id.
#[verifier::opaque]
pub open spec fn roots_le(commits: Seq<CommitData>, a: u64, b: u64) -> bool {
    let mb = merge_base_spec(commits, a, b);
    if mb == Some(a) {
        true
    } else if mb == Some(b) {
        false
    } else {
        let ta = commits[idx_of(commits, a)].committer_time;
        let tb = commits[idx_of(commits, b)].committer_time;
        ta < tb || (ta == tb && a <= b)
    }
}

/// Any two roots are ordered one way or the other.
proof fn lemma_roots_le_total(commits: Seq<CommitData>, a: u64, b: u64)
    requires
        !roots_le(commits, a, b),
    ensures
        roots_le(commits, b, a),
{
    reveal(roots_le);
}

/// Decide the root order, querying (and memoizing) the merge base.
fn roots_le_exec(repo: &Repo, merge_base_db: &mut MergeBaseDb, a: u64, b: u64) -> (le: bool)
    requires
        repo.wf(),
        old(merge_base_db).wf(*repo),
        has_commit(repo.commits@, a),
        has_commit(repo.commits@, b),
    ensures
        final(merge_base_db).wf(*repo),
        le == roots_le(repo.commits@, a, b),
{
    proof {
        reveal(roots_le);
    }
    let mb = merge_base_db.get_merge_base_oid(repo, a, b);
    match mb {
        Some(m) => {
            if m == a {
                true
            } else if m == b {
                false
            } else {
                roots_time_le(repo, a, b)
            }
        },
        None => roots_time_le(repo, a, b),
    }
}

/// The time-and-id tiebreak of the root order.
fn roots_time_le(repo: &Repo, a: u64, b: u64) -> (le: bool)
    requires
        repo.commits_wf(),
        has_commit(repo.commits@, a),
        has_commit(repo.commits@, b),
    ensures
        le == ({
            let ta = repo.commits@[idx_of(repo.commits@, a)].committer_time;
            let tb = repo.commits@[idx_of(repo.commits@, b)].committer_time;
            ta < tb || (ta == tb && a <= b)
        }),
{
    let ta = match repo.find_commit(a) {
        Some(c) => c.committer_time,
        None => {
            proof {
                assert(false);
            }
            0
        },
    };
    let tb = match repo.find_commit(b) {
        Some(c) => c.committer_time,
        None => {
            proof {
                assert(false);
            }
            0
        },
    };
    ta < tb || (ta == tb && a <= b)
}

/// Inserting into an id list adds exactly the new id to its contents.
proof fn lemma_insert_ids(s: Seq<u64>, i: int, x: u64)
    requires
        0 <= i <= s.len(),
    ensures
        forall|y: u64| #[trigger] s.insert(i, x).contains(y) <==> (y == x || s.contains(y)),
{
    let t = s.insert(i, x);
    assert forall|y: u64| #[trigger] t.contains(y) implies (y == x || s.contains(y)) by {
        let w = choose|w: int| 0 <= w < t.len() && t[w] == y;
        if w < i {
            assert(s[w] == y);
        } else if w > i {
            assert(s[w - 1] == y);
        }
    }
    assert forall|y: u64| y == x || s.contains(y) implies #[trigger] t.contains(y) by {
        if y == x {
            assert(t[i] == y);
        } else {
            let w = choose|w: int| 0 <= w < s.len() && s[w] == y;
            if w < i {
                assert(t[w] == y);
            } else {
                assert(t[w + 1] == y);
            }
        }
    }
}

/// Collect the parentless nodes' commits, in graph order.
#[verifier::loop_isolation(false)]
fn collect_roots(repo: &Repo, graph: &CommitGraph) -> (collected: Vec<u64>)
    requires
        repo.wf(),
        graph_wf(*repo, graph.nodes@),
    ensures
        forall|q: int|
            0 <= q < collected@.len() ==> graph_has(graph.nodes@, #[trigger] collected@[q])
                && node_of(graph.nodes@, collected@[q]).parent is None,
        forall|k: int|
            0 <= k < graph.nodes@.len() && (#[trigger] graph.nodes@[k]).parent is None
                ==> collected@.contains(graph.nodes@[k].commit_oid.num),
        forall|q1: int, q2: int|
            0 <= q1 < q2 < collected@.len() ==> collected@[q1] != collected@[q2],
{
    let n = graph.len();
    let mut collected: Vec<u64> = Vec::new();
    let mut k: usize = 0;
    while k < n
        invariant
            k <= n,
            forall|q: int|
                0 <= q < collected@.len() ==> graph_has(graph.nodes@, #[trigger] collected@[q])
                    && node_of(graph.nodes@, collected@[q]).parent is None,
            forall|q: int|
                0 <= q < collected@.len() ==> node_idx_of(graph.nodes@, #[trigger] collected@[q])
                    < k,
            forall|q1: int, q2: int|
                0 <= q1 < q2 < collected@.len() ==> node_idx_of(
                    graph.nodes@,
                    #[trigger] collected@[q1],
                ) < node_idx_of(graph.nodes@, #[trigger] collected@[q2]),
            forall|k2: int|
                0 <= k2 < k && (#[trigger] graph.nodes@[k2]).parent is None
                    ==> collected@.contains(graph.nodes@[k2].commit_oid.num),
        decreases n - k,
    {
        let nd = &graph.nodes[k];
        let is_root = match &nd.parent {
            Some(_) => false,
            None => true,
        };
        if is_root {
            let ghost r0 = collected@;
            collected.push(nd.commit_oid.num);
            proof {
                assert(collected@[r0.len() as int] == graph.nodes@[k as int].commit_oid.num);
                assert(graph_has(graph.nodes@, graph.nodes@[k as int].commit_oid.num));
                crate::graph::lemma_graph_unique(
                    *repo,
                    graph.nodes@,
                    k as int,
                    node_idx_of(graph.nodes@, graph.nodes@[k as int].commit_oid.num),
                );
                assert forall|k2: int|
                    0 <= k2 < k + 1 && (#[trigger] graph.nodes@[k2]).parent
                        is None implies collected@.contains(graph.nodes@[k2].commit_oid.num) by {
                    if k2 < k {
                        let w = choose|w: int|
                            0 <= w < r0.len() && r0[w] == graph.nodes@[k2].commit_oid.num;
                        assert(collected@[w] == graph.nodes@[k2].commit_oid.num);
                    }
                }
                assert forall|q: int| 0 <= q < collected@.len() implies graph_has(
                    graph.nodes@,
                    #[trigger] collected@[q],
                ) && node_of(graph.nodes@, collected@[q]).parent is None by {
                    if q < r0.len() {
                        assert(collected@[q] == r0[q]);
                    }
                }
            }
        }
        k += 1;
    }
    proof {
        assert forall|q1: int, q2: int|
            0 <= q1 < q2 < collected@.len() implies collected@[q1] != collected@[q2] by {
            assert(node_idx_of(graph.nodes@, collected@[q1]) < node_idx_of(
                graph.nodes@,
                collected@[q2],
            ));
        }
    }
    collected
}

/// Sort roots by the stated order with an insertion sort.
#[verifier::loop_isolation(false)]
#[verifier::rlimit(100)]
#[verifier::spinoff_prover]
fn sort_roots(
    repo: &Repo,
    merge_base_db: &mut MergeBaseDb,
    graph: &CommitGraph,
    collected: &Vec<u64>,
) -> (roots: Vec<u64>)
    requires
        repo.wf(),
        graph_wf(*repo, graph.nodes@),
        old(merge_base_db).wf(*repo),
        forall|q: int|
            0 <= q < collected@.len() ==> graph_has(graph.nodes@, #[trigger] collected@[q])
                && node_of(graph.nodes@, collected@[q]).parent is None,
        forall|q1: int, q2: int|
            0 <= q1 < q2 < collected@.len() ==> collected@[q1] != collected@[q2],
    ensures
        final(merge_base_db).wf(*repo),
        forall|y: u64| #[trigger] roots@.contains(y) <==> collected@.contains(y),
        forall|q: int|
            0 <= q < roots@.len() ==> graph_has(graph.nodes@, #[trigger] roots@[q]) && node_of(
                graph.nodes@,
                roots@[q],
            ).parent is None,
        forall|q1: int, q2: int| 0 <= q1 < q2 < roots@.len() ==> roots@[q1] != roots@[q2],
        forall|q: int|
            0 <= q && q + 1 < roots@.len() ==> roots_le(
                repo.commits@,
                #[trigger] roots@[q],
                roots@[q + 1],
            ),
{
    let nc = collected.len();
    let mut roots: Vec<u64> = Vec::new();
    let mut i: usize = 0;
    while i < nc
        invariant
            i <= nc,
            nc == collected@.len(),
            roots@.len() == i,
            merge_base_db.wf(*repo),
            forall|y: u64| #[trigger]
                roots@.contains(y) <==> collected@.subrange(0, i as int).contains(y),
            forall|q: int|
                0 <= q < roots@.len() ==> graph_has(graph.nodes@, #[trigger] roots@[q]) && node_of(
                    graph.nodes@,
                    roots@[q],
                ).parent is None,
            forall|q1: int, q2: int| 0 <= q1 < q2 < roots@.len() ==> roots@[q1] != roots@[q2],
            forall|q: int|
                0 <= q && q + 1 < roots@.len() ==> roots_le(
                    repo.commits@,
                    #[trigger] roots@[q],
                    roots@[q + 1],
                ),
        decreases nc - i,
    {
        let x = collected[i];
        proof {
            assert(graph_has(graph.nodes@, collected@[i as int]));
            let w = node_idx_of(graph.nodes@, x);
            assert(0 <= w < graph.nodes@.len() && graph.nodes@[w].commit_oid.num == x);
            assert(has_commit(repo.commits@, x));
            assert(!roots@.contains(x)) by {
                if roots@.contains(x) {
                    let w2 = choose|w2: int|
                        0 <= w2 < collected@.subrange(0, i as int).len()
                            && (#[trigger] collected@.subrange(0, i as int)[w2]) == x;
                    assert(collected@[w2] == x && collected@[i as int] == x);
                }
            }
        }
        // find the insertion position: the first entry not `<=` x
        let m = roots.len();
        let mut p: usize = 0;
        let mut stop = false;
        while !stop && p < m
            invariant
                p <= m,
                m == roots@.len(),
                merge_base_db.wf(*repo),
                forall|j: int| 0 <= j < p ==> roots_le(repo.commits@, #[trigger] roots@[j], x),
                stop ==> p < m && !roots_le(repo.commits@, roots@[p as int], x),
            decreases m - p, if stop { 0int } else { 1int },
        {
            let e = roots[p];
            proof {
                assert(graph_has(graph.nodes@, roots@[p as int]));
                let w = node_idx_of(graph.nodes@, e);
                assert(0 <= w < graph.nodes@.len() && graph.nodes@[w].commit_oid.num == e);
                assert(has_commit(repo.commits@, e));
            }
            if roots_le_exec(repo, merge_base_db, e, x) {
                p += 1;
            } else {
                stop = true;
            }
        }
        proof {
            if p < m {
                assert(!roots_le(repo.commits@, roots@[p as int], x));
                lemma_roots_le_total(repo.commits@, roots@[p as int], x);
                assert(roots_le(repo.commits@, x, roots@[p as int]));
            }
        }
        let ghost out0 = roots@;
        roots.insert(p, x);
        proof {
            assert(roots@ == out0.insert(p as int, x));
            lemma_insert_ids(out0, p as int, x);
            assert forall|y: u64| #[trigger] roots@.contains(y) <==> collected@.subrange(
                0,
                i + 1,
            ).contains(y) by {
                if roots@.contains(y) {
                    if y == x {
                        assert(collected@.subrange(0, i + 1)[i as int] == y);
                    } else {
                        let w = choose|w: int|
                            0 <= w < collected@.subrange(0, i as int).len()
                                && (#[trigger] collected@.subrange(0, i as int)[w]) == y;
                        assert(collected@.subrange(0, i + 1)[w] == y);
                    }
                }
                if collected@.subrange(0, i + 1).contains(y) {
                    let w = choose|w: int|
                        0 <= w < collected@.subrange(0, i + 1).len() && (
                        #[trigger] collected@.subrange(0, i + 1)[w]) == y;
                    if w < i {
                        assert(collected@.subrange(0, i as int)[w] == y);
                    } else {
                        assert(y == x);
                    }
                }
            }
            assert forall|q: int| 0 <= q < roots@.len() implies graph_has(
                graph.nodes@,
                #[trigger] roots@[q],
            ) && node_of(graph.nodes@, roots@[q]).parent is None by {
                if q != p {
                    let w = if q < p {
                        q
                    } else {
                        q - 1
                    };
                    assert(out0[w] == roots@[q]);
                }
            }
            assert forall|q1: int, q2: int| 0 <= q1 < q2 < roots@.len() implies roots@[q1]
                != roots@[q2] by {
                let y1 = if q1 < p {
                    out0[q1]
                } else if q1 == p {
                    x
                } else {
                    out0[q1 - 1]
                };
                let y2 = if q2 < p {
                    out0[q2]
                } else if q2 == p {
                    x
                } else {
                    out0[q2 - 1]
                };
                assert(roots@[q1] == y1);
                assert(roots@[q2] == y2);
                if q1 == p || q2 == p {
                    assert(!out0.contains(x));
                    if q1 == p {
                        assert(out0[q2 - 1] == y2);
                        assert(out0.contains(y2));
                    } else {
                        assert(out0[q1] == y1);
                        assert(out0.contains(y1));
                    }
                }
            }
            assert forall|q: int| 0 <= q && q + 1 < roots@.len() implies roots_le(
                repo.commits@,
                #[trigger] roots@[q],
                roots@[q + 1],
            ) by {
                if q + 1 < p {
                    assert(roots@[q] == out0[q] && roots@[q + 1] == out0[q + 1]);
                } else if q + 1 == p {
                    assert(roots@[q] == out0[q] && roots@[q + 1] == x);
                } else if q == p {
                    assert(roots@[q] == x && roots@[q + 1] == out0[p as int]);
                } else {
                    assert(roots@[q] == out0[q - 1] && roots@[q + 1] == out0[q]);
                }
            }
        }
        i += 1;
    }
    proof {
        assert(collected@.subrange(0, nc as int) =~= collected@);
    }
    roots
}

/// Split fully-independent subgraphs by their roots: the parentless
/// nodes, sorted so that adjacent roots stand in the stated order —
/// topologically earlier subgraphs first where the merge base decides,
/// else by committer time, then id.
pub fn split_commit_graph_by_roots(
    repo: &Repo,
    merge_base_db: &mut MergeBaseDb,
    graph: &CommitGraph,
) -> (roots: Vec<u64>)
    requires
        repo.wf(),
        graph_wf(*repo, graph.nodes@),
        old(merge_base_db).wf(*repo),
    ensures
        final(merge_base_db).wf(*repo),
        forall|q: int|
            0 <= q < roots@.len() ==> graph_has(graph.nodes@, #[trigger] roots@[q]) && node_of(
                graph.nodes@,
                roots@[q],
            ).parent is None,
        forall|k: int|
            0 <= k < graph.nodes@.len() && (#[trigger] graph.nodes@[k]).parent is None
                ==> roots@.contains(graph.nodes@[k].commit_oid.num),
        forall|q1: int, q2: int| 0 <= q1 < q2 < roots@.len() ==> roots@[q1] != roots@[q2],
        forall|q: int|
            0 <= q && q + 1 < roots@.len() ==> roots_le(
                repo.commits@,
                #[trigger] roots@[q],
                roots@[q + 1],
            ),
{
    let collected = collect_roots(repo, graph);
    let roots = sort_roots(repo, merge_base_db, graph, &collected);
    proof {
        assert forall|k2: int|
            0 <= k2 < graph.nodes@.len() && (#[trigger] graph.nodes@[k2]).parent
                is None implies roots@.contains(graph.nodes@[k2].commit_oid.num) by {
            assert(collected@.contains(graph.nodes@[k2].commit_oid.num));
        }
    }
    roots
}

/// Whether the commit truly has the other as a parent in the repository
/// (not just in the graph, which may omit links between adjacent main
/// branch commits).
#[verifier::loop_isolation(false)]
fn has_real_parent(repo: &Repo, oid: u64, parent_oid: u64) -> (b: bool)
    requires
        repo.wf(),
{
    match repo.find_commit(oid) {
        Some(c) => {
            let np = c.parents.len();
            let mut i: usize = 0;
            while i < np
                invariant
                    i <= np,
                    np == c.parents@.len(),
                decreases np - i,
            {
                if c.parents[i].num == parent_oid {
                    return true;
                }
                i += 1;
            }
            false
        },
        None => false,
    }
}

/// The glyph a node is drawn with, by its place and state.
pub open spec fn node_glyph(glyphs: Glyphs, is_main: bool, is_visible: bool, is_head: bool) -> Seq<
    char,
> {
    if is_main {
        if is_visible {
            if is_head {
                glyphs.commit_main_head@
            } else {
                glyphs.commit_main@
            }
        } else {
            if is_head {
                glyphs.commit_main_hidden_head@
            } else {
                glyphs.commit_main_hidden@
            }
        }
    } else {
        if is_visible {
            if is_head {
                glyphs.commit_visible_head@
            } else {
                glyphs.commit_visible@
            }
        } else {
            if is_head {
                glyphs.commit_hidden_head@
            } else {
                glyphs.commit_hidden@
            }
        }
    }
}

/// One commit's rendered line: its glyph, a space, and its description.
pub open spec fn node_line(
    glyphs: Glyphs,
    commits: Seq<CommitData>,
    nodes: Seq<Node>,
    k: int,
    head: u64,
) -> Seq<char> {
    node_glyph(
        glyphs,
        nodes[k].is_main,
        nodes[k].is_visible,
        nodes[k].commit_oid.num == head && head != 0,
    ) + " "@ + crate::hiding::describe_spec(commits, nodes[k].commit_oid.num)
}

/// Whether some line of the output renders the commit: its text is the
/// commit's glyph, a space, and its description.
pub open spec fn rendered_line(
    glyphs: Glyphs,
    commits: Seq<CommitData>,
    nodes: Seq<Node>,
    oid: u64,
    head: u64,
    lines: Seq<cursive::utils::markup::StyledString>,
) -> bool {
    exists|i: int|
        0 <= i < lines.len() && styled_text(#[trigger] lines[i]) == node_line(
            glyphs,
            commits,
            nodes,
            node_idx_of(nodes, oid),
            head,
        )
}

/// Whether the appended block of output renders the node: some appended
/// line's text is its glyph, a space, and its description.
pub open spec fn output_renders(
    gl: Glyphs,
    commits: Seq<CommitData>,
    nodes: Seq<Node>,
    k: int,
    head: u64,
    out0: int,
    out: Seq<String>,
) -> bool {
    exists|i: int|
        out0 <= i < out.len() && (#[trigger] out[i])@ == node_line(gl, commits, nodes, k, head)
}

/// The plain-text glyph set, field by field.
pub open spec fn text_glyphs(gl: Glyphs) -> bool {
    &&& gl.line@ == "|"@
    &&& gl.vertical_ellipsis@ == ":"@
    &&& gl.commit_visible@ == "o"@
    &&& gl.commit_visible_head@ == "@"@
    &&& gl.commit_hidden@ == "x"@
    &&& gl.commit_hidden_head@ == "%"@
    &&& gl.commit_main@ == "O"@
    &&& gl.commit_main_head@ == "@"@
    &&& gl.commit_main_hidden@ == "X"@
    &&& gl.commit_main_hidden_head@ == "%"@
}

/// Render one node and its graph descendants, one line per commit with
/// connector lines between them. The first line draws the node itself:
/// its glyph, a space, and its description.
#[verifier::loop_isolation(false)]
fn get_child_output(
    glyphs: &Glyphs,
    repo: &Repo,
    graph: &CommitGraph,
    root_oids: &Vec<u64>,
    head_num: u64,
    current_idx: usize,
    last_child_line_char: Option<&String>,
) -> (lines: Vec<cursive::utils::markup::StyledString>)
    requires
        repo.wf(),
        graph_wf(*repo, graph.nodes@),
        current_idx < graph.nodes@.len(),
    ensures
        lines@.len() >= 1,
        styled_text(lines@[0]) == node_glyph(
            *glyphs,
            graph.nodes@[current_idx as int].is_main,
            graph.nodes@[current_idx as int].is_visible,
            graph.nodes@[current_idx as int].commit_oid.num == head_num && head_num != 0,
        ) + " "@ + crate::hiding::describe_spec(
            repo.commits@,
            graph.nodes@[current_idx as int].commit_oid.num,
        ),
    decreases graph.nodes@.len() - current_idx,
{
    let nd = &graph.nodes[current_idx];
    let is_head = nd.commit_oid.num == head_num && head_num != 0;
    let cursor_glyph: &String = if nd.is_main {
        if nd.is_visible {
            if is_head {
                &glyphs.commit_main_head
            } else {
                &glyphs.commit_main
            }
        } else {
            if is_head {
                &glyphs.commit_main_hidden_head
            } else {
                &glyphs.commit_main_hidden
            }
        }
    } else {
        if nd.is_visible {
            if is_head {
                &glyphs.commit_visible_head
            } else {
                &glyphs.commit_visible
            }
        } else {
            if is_head {
                &glyphs.commit_hidden_head
            } else {
                &glyphs.commit_hidden
            }
        }
    };
    let text = friendly_describe(repo, nd.commit_oid);
    proof {
        assert(cursor_glyph@ == node_glyph(*glyphs, nd.is_main, nd.is_visible, is_head));
    }
    let mut first = st_plain(cursor_glyph.as_str());
    st_append_plain(&mut first, " ");
    if is_head {
        let styled = st_bold(text.as_str());
        st_append(&mut first, styled);
    } else {
        st_append_plain(&mut first, text.as_str());
    }
    let ghost ft = styled_text(first);
    proof {
        assert(ft == node_glyph(
            *glyphs,
            graph.nodes@[current_idx as int].is_main,
            graph.nodes@[current_idx as int].is_visible,
            is_head,
        ) + " "@ + crate::hiding::describe_spec(
            repo.commits@,
            graph.nodes@[current_idx as int].commit_oid.num,
        ));
    }
    let mut lines: Vec<cursive::utils::markup::StyledString> = Vec::new();
    lines.push(first);
    let nc = graph.nodes[current_idx].children.len();
    let mut c: usize = 0;
    while c < nc
        invariant
            c <= nc,
            nc == graph.nodes@[current_idx as int].children@.len(),
            lines@.len() >= 1,
            styled_text(lines@[0]) == ft,
        decreases nc - c,
    {
        let ch = graph.nodes[current_idx].children[c];
        if !oid_list_contains(root_oids, ch.num) {
            // the connector towards this child
            if c == nc - 1 {
                match last_child_line_char {
                    Some(_) => {
                        let mut conn = st_plain(glyphs.line_with_offshoot.as_str());
                        st_append_plain(&mut conn, glyphs.slash.as_str());
                        lines.push(conn);
                    },
                    None => {
                        lines.push(st_plain(glyphs.line.as_str()));
                    },
                }
            } else {
                let mut conn = st_plain(glyphs.line_with_offshoot.as_str());
                st_append_plain(&mut conn, glyphs.slash.as_str());
                lines.push(conn);
            }
            proof {
                crate::graph::lemma_child_after_parent(
                    *repo,
                    graph.nodes@,
                    current_idx as int,
                    c as int,
                );
            }
            let w = match graph.find_node_index(ch.num) {
                Some(w) => w,
                None => {
                    proof {
                        assert(graph_has(graph.nodes@, ch.num));
                        assert(false);
                    }
                    0
                },
            };
            proof {
                crate::graph::lemma_graph_unique(
                    *repo,
                    graph.nodes@,
                    w as int,
                    node_idx_of(graph.nodes@, ch.num),
                );
            }
            let mut child_output = get_child_output(
                glyphs,
                repo,
                graph,
                root_oids,
                head_num,
                w,
                None,
            );
            let is_last = c == nc - 1;
            while child_output.len() > 0
                invariant
                    lines@.len() >= 1,
                    styled_text(lines@[0]) == ft,
                decreases child_output@.len(),
            {
                let child_line = child_output.remove(0);
                if is_last {
                    match last_child_line_char {
                        Some(lc) => {
                            let mut pref = st_plain(lc.as_str());
                            st_append_plain(&mut pref, " ");
                            st_append(&mut pref, child_line);
                            lines.push(pref);
                        },
                        None => {
                            lines.push(child_line);
                        },
                    }
                } else {
                    let mut pref = st_plain(glyphs.line.as_str());
                    st_append_plain(&mut pref, " ");
                    st_append(&mut pref, child_line);
                    lines.push(pref);
                }
            }
        }
        c += 1;
    }
    lines
}

/// Render the whole graph from the given roots.
#[verifier::loop_isolation(false)]
fn get_output(
    glyphs: &Glyphs,
    repo: &Repo,
    graph: &CommitGraph,
    head_num: u64,
    root_oids: &Vec<u64>,
) -> (lines: Vec<cursive::utils::markup::StyledString>)
    requires
        repo.wf(),
        graph_wf(*repo, graph.nodes@),
        forall|q: int| 0 <= q < root_oids@.len() ==> graph_has(graph.nodes@, #[trigger] root_oids@[q]),
    ensures
        root_oids@.len() > 0 ==> lines@.len() >= 1,
        forall|q: int|
            0 <= q < root_oids@.len() ==> rendered_line(
                *glyphs,
                repo.commits@,
                graph.nodes@,
                #[trigger] root_oids@[q],
                head_num,
                lines@,
            ),
{
    let mut lines: Vec<cursive::utils::markup::StyledString> = Vec::new();
    let nr = root_oids.len();
    let mut ridx: usize = 0;
    while ridx < nr
        invariant
            ridx <= nr,
            nr == root_oids@.len(),
            ridx > 0 ==> lines@.len() >= 1,
            forall|q: int|
                0 <= q < ridx ==> rendered_line(
                    *glyphs,
                    repo.commits@,
                    graph.nodes@,
                    #[trigger] root_oids@[q],
                    head_num,
                    lines@,
                ),
        decreases nr - ridx,
    {
        let ghost pre_body = lines@;
        let root = root_oids[ridx];
        match graph.find_node_index(root) {
            Some(k) => {
                let has_parents = match repo.find_commit(root) {
                    Some(c) => c.parents.len() > 0,
                    None => false,
                };
                if has_parents {
                    let connected = if ridx > 0 {
                        has_real_parent(repo, root, root_oids[ridx - 1])
                    } else {
                        false
                    };
                    if connected {
                        lines.push(st_plain(glyphs.line.as_str()));
                    } else {
                        lines.push(st_plain(glyphs.vertical_ellipsis.as_str()));
                    }
                } else if ridx > 0 {
                    lines.push(st_new());
                }
                let mut child_output = if ridx == nr - 1 {
                    get_child_output(glyphs, repo, graph, root_oids, head_num, k, None)
                } else {
                    let next_root = root_oids[ridx + 1];
                    let lc: &String = if has_real_parent(repo, next_root, root) {
                        &glyphs.line
                    } else {
                        &glyphs.vertical_ellipsis
                    };
                    get_child_output(glyphs, repo, graph, root_oids, head_num, k, Some(lc))
                };
                let ghost lbase = lines@.len();
                let ghost co0 = child_output@.len();
                let ghost predrain = lines@;
                let ghost cl0 = child_output@[0];
                proof {
                    assert(pre_body.len() <= predrain.len());
                    assert(forall|i: int| 0 <= i < pre_body.len() ==> predrain[i] == pre_body[i]);
                }
                while child_output.len() > 0
                    invariant
                        lines@.len() + child_output@.len() == lbase + co0,
                        co0 >= 1,
                        lines@.len() >= lbase,
                        forall|i: int| 0 <= i < lbase ==> lines@[i] == predrain[i],
                        child_output@.len() == co0 ==> lines@.len() == lbase
                            && child_output@[0] == cl0,
                        lines@.len() > lbase ==> lines@[lbase as int] == cl0,
                    decreases child_output@.len(),
                {
                    let line = child_output.remove(0);
                    lines.push(line);
                }
                proof {
                    assert(lines@.len() >= 1);
                    crate::graph::lemma_graph_unique(
                        *repo,
                        graph.nodes@,
                        k as int,
                        node_idx_of(graph.nodes@, root_oids@[ridx as int]),
                    );
                    assert(styled_text(lines@[lbase as int]) == node_line(
                        *glyphs,
                        repo.commits@,
                        graph.nodes@,
                        node_idx_of(graph.nodes@, root_oids@[ridx as int]),
                        head_num,
                    ));
                    assert forall|q: int| 0 <= q < ridx + 1 implies rendered_line(
                        *glyphs,
                        repo.commits@,
                        graph.nodes@,
                        #[trigger] root_oids@[q],
                        head_num,
                        lines@,
                    ) by {
                        if q < ridx {
                            let iw = choose|i: int|
                                0 <= i < pre_body.len() && styled_text(
                                    #[trigger] pre_body[i],
                                ) == node_line(
                                    *glyphs,
                                    repo.commits@,
                                    graph.nodes@,
                                    node_idx_of(graph.nodes@, root_oids@[q]),
                                    head_num,
                                );
                            assert(lines@[iw] == pre_body[iw]);
                            assert(styled_text(lines@[iw]) == node_line(
                                *glyphs,
                                repo.commits@,
                                graph.nodes@,
                                node_idx_of(graph.nodes@, root_oids@[q]),
                                head_num,
                            ));
                        } else {
                            assert(styled_text(lines@[lbase as int]) == node_line(
                                *glyphs,
                                repo.commits@,
                                graph.nodes@,
                                node_idx_of(graph.nodes@, root_oids@[q]),
                                head_num,
                            ));
                        }
                    }
                }
            },
            None => {
                proof {
                    assert(graph_has(graph.nodes@, root_oids@[ridx as int]));
                    assert(false);
                }
            },
        }
        ridx += 1;
    }
    lines
}

/// Render the smartlog graph for the given graph and head.
pub fn render_graph(
    repo: &Repo,
    merge_base_db: &mut MergeBaseDb,
    graph: &CommitGraph,
    head_oid: &HeadOid,
    glyphs: &Glyphs,
) -> (lines: Vec<cursive::utils::markup::StyledString>)
    requires
        repo.wf(),
        graph_wf(*repo, graph.nodes@),
        old(merge_base_db).wf(*repo),
    ensures
        final(merge_base_db).wf(*repo),
        graph.nodes@.len() > 0 ==> lines@.len() >= 1,
        forall|k: int|
            0 <= k < graph.nodes@.len() && (#[trigger] graph.nodes@[k]).parent is None
                ==> rendered_line(
                *glyphs,
                repo.commits@,
                graph.nodes@,
                graph.nodes@[k].commit_oid.num,
                head_num_of(*head_oid),
                lines@,
            ),
{
    let roots = split_commit_graph_by_roots(repo, merge_base_db, graph);
    proof {
        if graph.nodes@.len() > 0 {
            crate::graph::lemma_first_node_parentless(*repo, graph.nodes@);
            assert(roots@.contains(graph.nodes@[0].commit_oid.num));
            assert(roots@.len() > 0);
        }
    }
    let head_num: u64 = match head_oid.0 {
        Some(h) => h.num,
        None => 0,
    };
    let lines = get_output(glyphs, repo, graph, head_num, &roots);
    proof {
        assert(head_num == head_num_of(*head_oid));
        assert forall|k: int|
            0 <= k < graph.nodes@.len() && (#[trigger] graph.nodes@[k]).parent
                is None implies rendered_line(
            *glyphs,
            repo.commits@,
            graph.nodes@,
            graph.nodes@[k].commit_oid.num,
            head_num_of(*head_oid),
            lines@,
        ) by {
            assert(roots@.contains(graph.nodes@[k].commit_oid.num));
            let q = choose|q: int|
                0 <= q < roots@.len() && roots@[q] == graph.nodes@[k].commit_oid.num;
            assert(rendered_line(
                *glyphs,
                repo.commits@,
                graph.nodes@,
                roots@[q],
                head_num,
                lines@,
            ));
        }
    }
    lines
}

/// Display the graph of commits the user has recently worked on: build the
/// visible graph at the current cursor and append its rendered lines to
/// the output.
#[verifier::loop_isolation(false)]
#[verifier::rlimit(100)]
#[verifier::spinoff_prover]
pub fn smartlog(
    repo: &Repo,
    event_log_db: &EventLogDb,
    merge_base_db: &mut MergeBaseDb,
    output: &mut Vec<String>,
) -> (exit: isize)
    requires
        repo.wf(),
        log_wf(event_log_db@),
        old(merge_base_db).wf(*repo),
    ensures
        exit == 0,
        final(merge_base_db).wf(*repo),
        final(output)@.len() > old(output)@.len(),
        forall|i: int| 0 <= i < old(output)@.len() ==> final(output)@[i] == old(output)@[i],
        exists|g: Seq<Node>, gl: Glyphs|
            {
                &&& #[trigger] crate::graph::graph_for(
                    *repo,
                    event_log_db@,
                    event_log_db@.len() as int,
                    repo.head_oid,
                    repo.branch_nums(),
                    g,
                )
                &&& #[trigger] text_glyphs(gl)
                &&& g.len() > 0
                &&& forall|k: int|
                    0 <= k < g.len() && (#[trigger] g[k]).parent is None ==> output_renders(
                        gl,
                        repo.commits@,
                        g,
                        k,
                        repo.head_oid,
                        old(output)@.len() as int,
                        final(output)@,
                    )
            },
{
    let glyphs = Glyphs::text();
    let event_replayer = EventReplayer::from_event_log_db(event_log_db);
    let event_cursor = event_replayer.make_default_cursor();
    let head = repo.get_head_info();
    let main = repo.get_main_branch_oid();
    let branches = repo.branch_oids();
    proof {
        assert forall|k: int| 0 <= k < branches@.len() implies has_commit(
            repo.commits@,
            #[trigger] branches@[k],
        ) by {
            assert(branches@[k] == repo.branches@.map_values(
                |b: crate::repo::RefEntry| b.oid.num,
            )[k]);
            assert(branches@[k] == repo.branches@[k].oid.num);
        }
    }
    let graph = make_graph(
        repo,
        merge_base_db,
        &event_replayer,
        event_cursor,
        &HeadOid(head),
        &MainBranchOid(main),
        &BranchOids(branches),
        false,
    );
    let head2 = repo.get_head_info();
    proof {
        // the main branch tip always has a node, so something is rendered
        assert(graph_has(graph.nodes@, main.num));
        assert(graph.nodes@.len() > 0);
        assert(event_replayer.events() == event_log_db@);
        assert(event_cursor.event_id - 1 == event_log_db@.len() as int);
        assert(crate::graph::graph_for(
            *repo,
            event_log_db@,
            event_log_db@.len() as int,
            repo.head_oid,
            repo.branch_nums(),
            graph.nodes@,
        ));
        assert(head_num_of(HeadOid(head2)) == repo.head_oid);
    }
    let mut lines = render_graph(repo, merge_base_db, &graph, &HeadOid(head2), &glyphs);
    let ghost l0 = lines@.len();
    let ghost lines0 = lines@;
    while lines.len() > 0
        invariant
            lines@.len() <= l0,
            lines@ =~= lines0.subrange((l0 - lines@.len()) as int, l0 as int),
            output@.len() == old(output)@.len() + l0 - lines@.len(),
            forall|i: int| 0 <= i < old(output)@.len() ==> output@[i] == old(output)@[i],
            forall|i: int|
                0 <= i < l0 - lines@.len() ==> (#[trigger] output@[old(output)@.len() + i])@
                    == styled_text(lines0[i]),
        decreases lines@.len(),
    {
        let ghost pre = lines@;
        let ghost done = l0 - lines@.len();
        let line = lines.remove(0);
        proof {
            assert(line == pre[0]);
            assert(pre[0] == lines0[done as int]);
            assert(lines@ =~= lines0.subrange((l0 - lines@.len()) as int, l0 as int));
        }
        output.push(printable_styled_string(&glyphs, &line));
    }
    proof {
        assert(text_glyphs(glyphs));
        assert forall|k: int|
            0 <= k < graph.nodes@.len() && (#[trigger] graph.nodes@[k]).parent
                is None implies output_renders(
            glyphs,
            repo.commits@,
            graph.nodes@,
            k,
            repo.head_oid,
            old(output)@.len() as int,
            output@,
        ) by {
            assert(rendered_line(
                glyphs,
                repo.commits@,
                graph.nodes@,
                graph.nodes@[k].commit_oid.num,
                head_num_of(HeadOid(head2)),
                lines0,
            ));
            let iw = choose|i: int|
                0 <= i < lines0.len() && styled_text(#[trigger] lines0[i]) == node_line(
                    glyphs,
                    repo.commits@,
                    graph.nodes@,
                    node_idx_of(graph.nodes@, graph.nodes@[k].commit_oid.num),
                    head_num_of(HeadOid(head2)),
                );
            crate::graph::lemma_graph_unique(
                *repo,
                graph.nodes@,
                k,
                node_idx_of(graph.nodes@, graph.nodes@[k].commit_oid.num),
            );
            assert((output@[old(output)@.len() + iw])@ == node_line(
                glyphs,
                repo.commits@,
                graph.nodes@,
                k,
                repo.head_oid,
            ));
        }
    }
    0
}

} // verus!
