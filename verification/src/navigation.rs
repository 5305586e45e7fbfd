//! Convenience commands to move through a stack of commits.
//!
//! Checking a commit out is modelled as moving HEAD and appending the
//! reference-update event the underlying version control system would
//! record for it.

use vstd::prelude::*;
use crate::eventlog::{log_capacity, log_wf, Event, EventLogDb, EventReplayer};
use crate::graph::{
    graph_has, graph_wf, make_graph, node_idx_of, node_of, BranchOids, CommitGraph, HeadOid,
    MainBranchOid, Node,
};
use crate::hiding::{describe_spec, friendly_describe, lines_of};
use crate::mergebase::{chain_oids, commit_chain, lemma_chain_oids_members, path_to_merge_base_spec, MergeBaseDb};
use crate::oid::NonZeroOid;
use crate::repo::{has_commit, idx_of, CommitData, Repo};

verus! {

/// Which child to step to when a commit has several.
#[derive(Clone, Copy, Debug)]
pub enum Towards {
    /// Select the newest child.
    Newest,
    /// Select the oldest child.
    Oldest,
}

/// Where stepping forward `n` times from `cur` lands: follow an only
/// child, pick the oldest or newest child as asked, stop early at a leaf,
/// and yield nothing when several children are available but no
/// disambiguation was asked for.
pub open spec fn advance_spec(nodes: Seq<Node>, cur: u64, n: nat, towards: Option<Towards>) -> Option<
    u64,
>
    decreases n,
{
    if n == 0 {
        Some(cur)
    } else if !graph_has(nodes, cur) {
        Some(cur)
    } else {
        let ch = nodes[node_idx_of(nodes, cur)].children@;
        if ch.len() == 0 {
            Some(cur)
        } else if ch.len() == 1 {
            advance_spec(nodes, ch[0].num, (n - 1) as nat, towards)
        } else {
            match towards {
                Some(Towards::Newest) => advance_spec(
                    nodes,
                    ch.last().num,
                    (n - 1) as nat,
                    towards,
                ),
                Some(Towards::Oldest) => advance_spec(nodes, ch[0].num, (n - 1) as nat, towards),
                None => None,
            }
        }
    }
}

/// The commit an undirected walk stalls at: follow only children while
/// steps remain; stop at a leaf, at a commit outside the graph, or at the
/// first commit with several children.
pub open spec fn advance_stuck(nodes: Seq<Node>, cur: u64, n: nat) -> u64
    decreases n,
{
    if n == 0 {
        cur
    } else if !graph_has(nodes, cur) {
        cur
    } else {
        let ch = nodes[node_idx_of(nodes, cur)].children@;
        if ch.len() == 1 {
            advance_stuck(nodes, ch[0].num, (n - 1) as nat)
        } else {
            cur
        }
    }
}

/// The listing line for one child: its description, marked oldest or
/// newest at the ends of the list.
pub open spec fn child_line(commits: Seq<CommitData>, ch: Seq<NonZeroOid>, c: int) -> Seq<char> {
    "  - "@ + describe_spec(commits, ch[c].num) + (if c == 0 {
        " (oldest)"@
    } else if c == ch.len() - 1 {
        " (newest)"@
    } else {
        Seq::empty()
    })
}

/// The listing lines for the children from position `c` on.
pub open spec fn child_lines(commits: Seq<CommitData>, ch: Seq<NonZeroOid>, c: int) -> Seq<
    Seq<char>,
>
    decreases ch.len() - c,
{
    if !(0 <= c < ch.len()) {
        Seq::empty()
    } else {
        seq![child_line(commits, ch, c)] + child_lines(commits, ch, c + 1)
    }
}

/// A walk with a disambiguation choice always lands somewhere.
pub proof fn lemma_advance_some(nodes: Seq<Node>, cur: u64, n: nat, towards: Option<Towards>)
    requires
        towards is Some,
    ensures
        advance_spec(nodes, cur, n, towards) is Some,
    decreases n,
{
    if n > 0 && graph_has(nodes, cur) {
        let ch = nodes[node_idx_of(nodes, cur)].children@;
        if ch.len() == 1 {
            lemma_advance_some(nodes, ch[0].num, (n - 1) as nat, towards);
        } else if ch.len() > 1 {
            match towards {
                Some(Towards::Newest) => {
                    lemma_advance_some(nodes, ch.last().num, (n - 1) as nat, towards);
                },
                Some(Towards::Oldest) => {
                    lemma_advance_some(nodes, ch[0].num, (n - 1) as nat, towards);
                },
                None => {},
            }
        }
    }
}

/// The first position along the reversed main-branch path (the merge base
/// skipped) whose commit the graph holds, from `j` on; zero when none is.
pub open spec fn first_in_graph(nodes: Seq<Node>, p: Seq<u64>, j: int) -> int
    decreases p.len() - j,
{
    if !(1 <= j < p.len()) {
        0
    } else if graph_has(nodes, p[p.len() - 1 - j]) {
        j
    } else {
        first_in_graph(nodes, p, j + 1)
    }
}

/// How many steps the walk towards the main branch takes.
pub open spec fn main_step_count(
    commits: Seq<CommitData>,
    nodes: Seq<Node>,
    main: u64,
    current: u64,
) -> int {
    match path_to_merge_base_spec(commits, main, current) {
        None => 0,
        Some(p) => if p.len() <= 1 {
            0
        } else {
            first_in_graph(nodes, p, 1)
        },
    }
}

/// Where the walk towards the main branch lands.
pub open spec fn main_step_oid(
    commits: Seq<CommitData>,
    nodes: Seq<Node>,
    main: u64,
    current: u64,
) -> u64 {
    let c = main_step_count(commits, nodes, main, current);
    if c == 0 {
        current
    } else {
        match path_to_merge_base_spec(commits, main, current) {
            Some(p) => p[p.len() - 1 - c],
            None => current,
        }
    }
}

/// Pin the first in-graph position when a hit is known past a failing
/// prefix.
proof fn lemma_fig_hit(nodes: Seq<Node>, p: Seq<u64>, j0: int, jh: int)
    requires
        1 <= j0 <= jh < p.len(),
        graph_has(nodes, p[p.len() - 1 - jh]),
        forall|j: int| j0 <= j < jh ==> !graph_has(nodes, #[trigger] p[p.len() - 1 - j]),
    ensures
        first_in_graph(nodes, p, j0) == jh,
    decreases jh - j0,
{
    if j0 < jh {
        lemma_fig_hit(nodes, p, j0 + 1, jh);
    }
}

/// The first in-graph position is zero when every position fails.
proof fn lemma_fig_none(nodes: Seq<Node>, p: Seq<u64>, j0: int)
    requires
        1 <= j0,
        forall|j: int| j0 <= j < p.len() ==> !graph_has(nodes, #[trigger] p[p.len() - 1 - j]),
    ensures
        first_in_graph(nodes, p, j0) == 0,
    decreases p.len() - j0,
{
    if j0 < p.len() {
        lemma_fig_none(nodes, p, j0 + 1);
    }
}

/// Step from the merge base towards the current commit along the main
/// branch, to the first commit the graph still holds; count the steps.
/// Walking the path from the main tip in reverse, skipping the merge base,
/// the result is the first in-graph commit with its distance; when the
/// path is missing, trivial, or holds no in-graph commit, no step is
/// taken.
#[verifier::loop_isolation(false)]
pub fn advance_towards_main_branch(
    repo: &Repo,
    merge_base_db: &mut MergeBaseDb,
    graph: &CommitGraph,
    current_oid: NonZeroOid,
    main_branch_oid: &MainBranchOid,
) -> (r: (usize, NonZeroOid))
    requires
        repo.wf(),
        graph_wf(*repo, graph.nodes@),
        old(merge_base_db).wf(*repo),
        has_commit(repo.commits@, current_oid.num),
        has_commit(repo.commits@, main_branch_oid.0.num),
    ensures
        final(merge_base_db).wf(*repo),
        r.0 == 0 ==> r.1 == current_oid,
        r.0 > 0 ==> graph_has(graph.nodes@, r.1.num) && has_commit(repo.commits@, r.1.num),
        ({
            let path = crate::mergebase::path_to_merge_base_spec(
                repo.commits@,
                main_branch_oid.0.num,
                current_oid.num,
            );
            match path {
                None => r.0 == 0,
                Some(p) => if p.len() <= 1 {
                    r.0 == 0
                } else {
                    &&& (r.0 > 0 ==> 1 <= r.0 < p.len() && r.1.num == p[p.len() - 1 - r.0]
                        && (forall|j: int|
                        1 <= j < r.0 ==> !graph_has(graph.nodes@, #[trigger] p[p.len() - 1 - j])))
                    &&& (r.0 == 0 ==> forall|j: int|
                        1 <= j < p.len() ==> !graph_has(
                            graph.nodes@,
                            #[trigger] p[p.len() - 1 - j],
                        ))
                },
            }
        }),
{
    let path = merge_base_db.find_path_to_merge_base(
        repo,
        main_branch_oid.0.num,
        current_oid.num,
    );
    match path {
        None => (0, current_oid),
        Some(p) => {
            let np = p.len();
            if np <= 1 {
                return (0, current_oid);
            }
            let mut i: usize = 1;
            while i < np
                invariant
                    1 <= i <= np,
                    np == p@.len(),
                    forall|j: int|
                        1 <= j < i ==> !graph_has(graph.nodes@, #[trigger] p@[np - 1 - j]),
                decreases np - i,
            {
                let element = p[np - 1 - i];
                match graph.find_node_index(element) {
                    Some(k) => {
                        let nd = &graph.nodes[k];
                        proof {
                            assert(graph_has(graph.nodes@, graph.nodes@[k as int].commit_oid.num));
                            assert(nd.commit_oid.num == p@[np - 1 - i as int]);
                        }
                        return (i, nd.commit_oid);
                    },
                    None => {},
                }
                i += 1;
            }
            (0, current_oid)
        },
    }
}

/// Step forward through children, as `advance_spec` says; on an ambiguous
/// step, list the choices and yield nothing.
#[verifier::loop_isolation(false)]
pub fn advance_towards_own_commit(
    repo: &Repo,
    graph: &CommitGraph,
    current_oid: NonZeroOid,
    num_commits: usize,
    towards: Option<Towards>,
    output: &mut Vec<String>,
) -> (r: Option<NonZeroOid>)
    requires
        repo.wf(),
        graph_wf(*repo, graph.nodes@),
        has_commit(repo.commits@, current_oid.num),
    ensures
        match r {
            Some(c) => advance_spec(graph.nodes@, current_oid.num, num_commits as nat, towards)
                == Some(c.num) && has_commit(repo.commits@, c.num),
            None => advance_spec(graph.nodes@, current_oid.num, num_commits as nat, towards)
                is None,
        },
        final(output)@.len() >= old(output)@.len(),
        forall|i: int| 0 <= i < old(output)@.len() ==> final(output)@[i] == old(output)@[i],
        r is None ==> final(output)@.len() >= old(output)@.len() + 2,
        r is None ==> ({
            let stuck = advance_stuck(graph.nodes@, current_oid.num, num_commits as nat);
            let ch = node_of(graph.nodes@, stuck).children@;
            &&& towards is None
            &&& graph_has(graph.nodes@, stuck)
            &&& ch.len() >= 2
            &&& lines_of(final(output)@) == lines_of(old(output)@) + seq![
                "Found multiple possible next commits to go to:"@,
            ] + child_lines(repo.commits@, ch, 0) + seq![
                "(Pass --oldest (-o) or --newest (-n) to select between ambiguous next commits)"@,
            ]
        }),
{
    let mut cur = current_oid;
    let mut i: usize = 0;
    while i < num_commits
        invariant
            i <= num_commits,
            has_commit(repo.commits@, cur.num),
            advance_spec(graph.nodes@, cur.num, (num_commits - i) as nat, towards) == advance_spec(
                graph.nodes@,
                current_oid.num,
                num_commits as nat,
                towards,
            ),
            towards is None ==> advance_stuck(graph.nodes@, cur.num, (num_commits - i) as nat)
                == advance_stuck(graph.nodes@, current_oid.num, num_commits as nat),
            output@ == old(output)@,
        decreases num_commits - i,
    {
        let k = match graph.find_node_index(cur.num) {
            Some(k) => k,
            None => {
                return Some(cur);
            },
        };
        proof {
            assert(graph_has(graph.nodes@, cur.num));
            crate::graph::lemma_graph_unique(
                *repo,
                graph.nodes@,
                k as int,
                node_idx_of(graph.nodes@, cur.num),
            );
        }
        let nc = graph.nodes[k].children.len();
        if nc == 0 {
            return Some(cur);
        } else if nc == 1 {
            cur = graph.nodes[k].children[0];
        } else {
            match towards {
                Some(Towards::Newest) => {
                    cur = graph.nodes[k].children[nc - 1];
                },
                Some(Towards::Oldest) => {
                    cur = graph.nodes[k].children[0];
                },
                None => {
                    proof {
                        assert(advance_stuck(graph.nodes@, cur.num, (num_commits - i) as nat)
                            == cur.num);
                        assert(node_of(graph.nodes@, cur.num) == graph.nodes@[k as int]);
                    }
                    let ghost chs = graph.nodes@[k as int].children@;
                    output.push(
                        String::from_str("Found multiple possible next commits to go to:"),
                    );
                    let ghost hdr_out = output@;
                    let mut c: usize = 0;
                    while c < nc
                        invariant
                            c <= nc,
                            nc == chs.len(),
                            chs == graph.nodes@[k as int].children@,
                            k < graph.nodes@.len(),
                            output@.len() >= old(output)@.len() + 1,
                            forall|q: int|
                                0 <= q < old(output)@.len() ==> output@[q] == old(output)@[q],
                            lines_of(output@) + child_lines(repo.commits@, chs, c as int)
                                == lines_of(hdr_out) + child_lines(repo.commits@, chs, 0),
                        decreases nc - c,
                    {
                        let ghost out_c = output@;
                        let ch = graph.nodes[k].children[c];
                        let mut line = String::from_str("  - ");
                        let desc = friendly_describe(repo, ch);
                        line.append(desc.as_str());
                        if c == 0 {
                            line.append(" (oldest)");
                        } else if c == nc - 1 {
                            line.append(" (newest)");
                        }
                        output.push(line);
                        proof {
                            assert(line@ == child_line(repo.commits@, chs, c as int)) by {
                                if c != 0 && c != nc - 1 {
                                    assert(("  - "@ + describe_spec(repo.commits@, chs[c as int].num))
                                        + Seq::<char>::empty() =~= "  - "@ + describe_spec(
                                        repo.commits@,
                                        chs[c as int].num,
                                    ));
                                }
                            }
                            assert(child_lines(repo.commits@, chs, c as int) == seq![
                                child_line(repo.commits@, chs, c as int),
                            ] + child_lines(repo.commits@, chs, c + 1));
                            assert(lines_of(output@) =~= lines_of(out_c) + seq![line@]);
                            assert(lines_of(output@) + child_lines(repo.commits@, chs, c + 1)
                                =~= lines_of(out_c) + child_lines(repo.commits@, chs, c as int));
                        }
                        c += 1;
                    }
                    let ghost out_bh = output@;
                    output.push(
                        String::from_str(
                            "(Pass --oldest (-o) or --newest (-n) to select between ambiguous next commits)",
                        ),
                    );
                    proof {
                        let a = lines_of(old(output)@);
                        let h = seq![
                            "Found multiple possible next commits to go to:"@,
                        ];
                        let cl = child_lines(repo.commits@, chs, 0);
                        let t = seq![
                            "(Pass --oldest (-o) or --newest (-n) to select between ambiguous next commits)"@,
                        ];
                        assert(child_lines(repo.commits@, chs, nc as int)
                            =~= Seq::<Seq<char>>::empty());
                        assert(lines_of(out_bh) + Seq::<Seq<char>>::empty() =~= lines_of(out_bh));
                        assert(lines_of(out_bh) == lines_of(hdr_out) + cl);
                        assert(lines_of(hdr_out) =~= a + h);
                        assert(lines_of(output@) =~= lines_of(out_bh) + t);
                        assert(lines_of(output@) =~= a + h + cl + t);
                    }
                    return None;
                },
            }
        }
        i += 1;
    }
    Some(cur)
}

/// Go back a number of commits: check out the ancestor that many
/// first-parent steps behind HEAD, then show the smartlog.
#[verifier::loop_isolation(false)]
pub fn prev(
    repo: &mut Repo,
    event_log_db: &mut EventLogDb,
    merge_base_db: &mut MergeBaseDb,
    now: u64,
    num_commits: Option<usize>,
    output: &mut Vec<String>,
) -> (exit: isize)
    requires
        old(repo).wf(),
        log_wf(old(event_log_db)@),
        old(event_log_db)@.len() + 2 < log_capacity(),
        old(event_log_db).tx_counter() < u64::MAX,
        old(merge_base_db).wf(*old(repo)),
    ensures
        exit == 0 || exit == 1,
        final(repo).wf(),
        final(repo).commits@ == old(repo).commits@,
        final(repo).branches@ == old(repo).branches@,
        final(repo).main_branch_name@ == old(repo).main_branch_name@,
        exit == 1 ==> final(repo).head_oid == old(repo).head_oid
            && final(event_log_db)@ == old(event_log_db)@,
        exit == 1 <==> (old(repo).head_oid == 0 || (match num_commits {
            Some(n) => n as int,
            None => 1,
        }) >= chain_oids(
            old(repo).commits@,
            idx_of(old(repo).commits@, old(repo).head_oid),
        ).len()),
        exit == 0 ==> {
            let n = (match num_commits {
                Some(n) => n as int,
                None => 1,
            });
            let chain = chain_oids(old(repo).commits@, idx_of(old(repo).commits@, old(repo).head_oid));
            &&& final(repo).head_oid == chain[n]
            &&& final(event_log_db)@.len() == old(event_log_db)@.len() + 1
            &&& (forall|i: int|
                0 <= i < old(event_log_db)@.len() ==> final(event_log_db)@[i] == old(event_log_db)@[i])
            &&& final(event_log_db)@.last() matches Event::RefUpdateEvent {
                ref_name,
                old_oid,
                new_oid,
                event_tx_id,
                timestamp,
                ..
            } && ref_name@ == "HEAD"@ && old_oid == old(repo).head_oid && new_oid == final(repo).head_oid && event_tx_id == old(event_log_db).tx_counter() + 1 && timestamp == now
        },
{
    let n: usize = match num_commits {
        Some(n) => n,
        None => 1,
    };
    let head = match repo.get_head_info() {
        Some(h) => h,
        None => {
            output.push(String::from_str("No HEAD present; cannot go back."));
            return 1;
        },
    };
    let chain = commit_chain(repo, head.num);
    if n >= chain.len() {
        output.push(String::from_str("Cannot go back that many commits."));
        return 1;
    }
    let target = chain[n];
    proof {
        lemma_chain_oids_members(repo.commits@, idx_of(repo.commits@, head.num));
    }
    repo.set_head(target);
    let tx = event_log_db.make_transaction_id(now, "prev");
    let mut events: Vec<Event> = Vec::new();
    events.push(
        Event::RefUpdateEvent {
            timestamp: now,
            event_tx_id: tx,
            ref_name: String::from_str("HEAD"),
            old_oid: head.num,
            new_oid: target,
            message: None,
        },
    );
    event_log_db.add_events(events);
    proof {
        crate::mergebase::lemma_mergebase_wf_same_commits(*merge_base_db, *old(repo), *repo);
    }
    crate::smartlog::smartlog(repo, event_log_db, merge_base_db, output);
    0
}

/// Go forward a number of commits: step towards the main branch first,
/// then through children, check the target out, and show the smartlog.
#[verifier::loop_isolation(false)]
pub fn next(
    repo: &mut Repo,
    event_log_db: &mut EventLogDb,
    merge_base_db: &mut MergeBaseDb,
    now: u64,
    num_commits: Option<usize>,
    towards: Option<Towards>,
    output: &mut Vec<String>,
) -> (exit: isize)
    requires
        old(repo).wf(),
        log_wf(old(event_log_db)@),
        old(event_log_db)@.len() + 2 < log_capacity(),
        old(event_log_db).tx_counter() < u64::MAX,
        old(merge_base_db).wf(*old(repo)),
    ensures
        exit == 0 || exit == 1,
        final(repo).wf(),
        final(repo).commits@ == old(repo).commits@,
        final(repo).branches@ == old(repo).branches@,
        final(repo).main_branch_name@ == old(repo).main_branch_name@,
        exit == 1 ==> final(repo).head_oid == old(repo).head_oid,
        exit == 1 ==> final(event_log_db)@ == old(event_log_db)@,
        exit == 1 ==> old(repo).head_oid == 0 || towards is None,
        old(repo).head_oid == 0 ==> exit == 1 && final(output)@.len() > old(output)@.len()
            && final(output)@.last()@ == "No HEAD present; cannot calculate next commit."@,
        exit == 0 ==> ({
            &&& has_commit(final(repo).commits@, final(repo).head_oid)
            &&& final(event_log_db)@.len() == old(event_log_db)@.len() + 1
            &&& (forall|i: int|
                0 <= i < old(event_log_db)@.len() ==> final(event_log_db)@[i] == old(
                    event_log_db,
                )@[i])
            &&& final(event_log_db)@.last() matches Event::RefUpdateEvent {
                ref_name,
                old_oid,
                new_oid,
                event_tx_id,
                timestamp,
                ..
            } && ref_name@ == "HEAD"@ && old_oid == old(repo).head_oid
                && new_oid == final(repo).head_oid && event_tx_id == old(
                event_log_db,
            ).tx_counter() + 1 && timestamp == now
        }),
        (exit == 0 && old(repo).head_oid != 0) ==> exists|g: Seq<Node>|
            {
                &&& #[trigger] crate::graph::graph_for(
                    *old(repo),
                    old(event_log_db)@,
                    old(event_log_db)@.len() as int,
                    old(repo).head_oid,
                    old(repo).branch_nums(),
                    g,
                )
                &&& ({
                    let n = (match num_commits {
                        Some(n) => n as int,
                        None => 1int,
                    });
                    let cnt = main_step_count(
                        old(repo).commits@,
                        g,
                        old(repo).main_branch_oid_spec(),
                        old(repo).head_oid,
                    );
                    let start = main_step_oid(
                        old(repo).commits@,
                        g,
                        old(repo).main_branch_oid_spec(),
                        old(repo).head_oid,
                    );
                    let rem: nat = if n > cnt {
                        (n - cnt) as nat
                    } else {
                        0nat
                    };
                    advance_spec(g, start, rem, towards) == Some(final(repo).head_oid)
                })
            },
        (exit == 1 && old(repo).head_oid != 0) ==> exists|g: Seq<Node>|
            {
                &&& #[trigger] crate::graph::graph_for(
                    *old(repo),
                    old(event_log_db)@,
                    old(event_log_db)@.len() as int,
                    old(repo).head_oid,
                    old(repo).branch_nums(),
                    g,
                )
                &&& ({
                    let n = (match num_commits {
                        Some(n) => n as int,
                        None => 1int,
                    });
                    let cnt = main_step_count(
                        old(repo).commits@,
                        g,
                        old(repo).main_branch_oid_spec(),
                        old(repo).head_oid,
                    );
                    let start = main_step_oid(
                        old(repo).commits@,
                        g,
                        old(repo).main_branch_oid_spec(),
                        old(repo).head_oid,
                    );
                    let rem: nat = if n > cnt {
                        (n - cnt) as nat
                    } else {
                        0nat
                    };
                    let stuck = advance_stuck(g, start, rem);
                    let ch = node_of(g, stuck).children@;
                    &&& advance_spec(g, start, rem, towards) is None
                    &&& towards is None
                    &&& graph_has(g, stuck)
                    &&& ch.len() >= 2
                    &&& lines_of(final(output)@) == lines_of(old(output)@) + seq![
                        "Found multiple possible next commits to go to:"@,
                    ] + child_lines(old(repo).commits@, ch, 0) + seq![
                        "(Pass --oldest (-o) or --newest (-n) to select between ambiguous next commits)"@,
                    ]
                })
            },
{
    let n: usize = match num_commits {
        Some(n) => n,
        None => 1,
    };
    let head = match repo.get_head_info() {
        Some(h) => h,
        None => {
            output.push(String::from_str("No HEAD present; cannot calculate next commit."));
            return 1;
        },
    };
    let event_replayer = EventReplayer::from_event_log_db(event_log_db);
    let event_cursor = event_replayer.make_default_cursor();
    let main = repo.get_main_branch_oid();
    let branches = repo.branch_oids();
    proof {
        assert forall|k: int| 0 <= k < branches@.len() implies has_commit(
            repo.commits@,
            #[trigger] branches@[k],
        ) by {
            assert(branches@[k] == repo.branches@.map_values(
                |b: crate::repo::RefEntry| b.oid.num,
            )[k]);
            assert(branches@[k] == repo.branches@[k].oid.num);
        }
    }
    let graph = make_graph(
        repo,
        merge_base_db,
        &event_replayer,
        event_cursor,
        &HeadOid(Some(head)),
        &MainBranchOid(main),
        &BranchOids(branches),
        false,
    );
    proof {
        assert(*repo == *old(repo));
        assert(event_replayer.events() == old(event_log_db)@);
        assert(event_cursor.event_id - 1 == old(event_log_db)@.len() as int);
        assert(crate::graph::graph_for(
            *old(repo),
            old(event_log_db)@,
            old(event_log_db)@.len() as int,
            old(repo).head_oid,
            old(repo).branch_nums(),
            graph.nodes@,
        ));
    }
    let stepped = advance_towards_main_branch(
        repo,
        merge_base_db,
        &graph,
        head,
        &MainBranchOid(main),
    );
    let traversed = stepped.0;
    let cur = stepped.1;
    proof {
        let nodes = graph.nodes@;
        let mainnum = old(repo).main_branch_oid_spec();
        assert(main.num == mainnum);
        let popt = path_to_merge_base_spec(repo.commits@, main.num, head.num);
        match popt {
            None => {},
            Some(pth) => {
                if pth.len() > 1 {
                    if traversed > 0 {
                        lemma_fig_hit(nodes, pth, 1, traversed as int);
                    } else {
                        lemma_fig_none(nodes, pth, 1);
                    }
                }
            },
        }
        assert(main_step_count(old(repo).commits@, nodes, mainnum, old(repo).head_oid)
            == traversed as int);
        assert(main_step_oid(old(repo).commits@, nodes, mainnum, old(repo).head_oid) == cur.num);
    }
    let remaining: usize = if n > traversed {
        n - traversed
    } else {
        0
    };
    let target = match advance_towards_own_commit(repo, &graph, cur, remaining, towards, output) {
        Some(t) => t,
        None => {
            proof {
                // only an undirected walk can be ambiguous
                if towards is Some {
                    lemma_advance_some(graph.nodes@, cur.num, remaining as nat, towards);
                }
            }
            return 1;
        },
    };
    repo.set_head(target.num);
    let tx = event_log_db.make_transaction_id(now, "next");
    let mut events: Vec<Event> = Vec::new();
    events.push(
        Event::RefUpdateEvent {
            timestamp: now,
            event_tx_id: tx,
            ref_name: String::from_str("HEAD"),
            old_oid: head.num,
            new_oid: target.num,
            message: None,
        },
    );
    event_log_db.add_events(events);
    proof {
        crate::mergebase::lemma_mergebase_wf_same_commits(*merge_base_db, *old(repo), *repo);
    }
    crate::smartlog::smartlog(repo, event_log_db, merge_base_db, output);
    0
}

} // verus!
