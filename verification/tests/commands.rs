use branchless::config::Config;
use branchless::eventlog::{CommitVisibility, Event, EventCursor, EventLogDb, EventReplayer};
use branchless::graph::{make_graph, BranchOids, HeadOid, MainBranchOid};
use branchless::hiding::{hide_commits, unhide};
use branchless::mergebase::MergeBaseDb;
use branchless::navigation::{next, prev, Towards};
use branchless::repo::{CommitData, RefEntry, Repo};
use branchless::rewrite::{build_rebase_plan, move_commits, BuildRebasePlanOptions, RebaseStep};
use branchless::smartlog::smartlog;
use branchless::undo::undo_events;
use branchless::NonZeroOid;

fn commit(oid: u64, parents: Vec<u64>, time: u64, msg: &str, patch: u64) -> CommitData {
    CommitData {
        oid: NonZeroOid { num: oid },
        parents: parents.into_iter().map(|p| NonZeroOid { num: p }).collect(),
        committer_time: time,
        message: String::from(msg),
        patch_id: patch,
    }
}

fn repo_with(commits: Vec<CommitData>, head: u64, master: u64) -> Repo {
    Repo {
        commits,
        branches: vec![RefEntry { name: String::from("master"), oid: NonZeroOid { num: master } }],
        head_oid: head,
        main_branch_name: String::from("master"),
    }
}

fn log_with_commits(oids: &[u64]) -> EventLogDb {
    let mut db = EventLogDb::new();
    let tx = db.make_transaction_id(0, "commit");
    let mut events = Vec::new();
    for &o in oids {
        events.push(Event::CommitEvent {
            timestamp: 0,
            event_tx_id: tx,
            commit_oid: NonZeroOid { num: o },
        });
    }
    db.add_events(events);
    db
}

fn visibility(db: &EventLogDb, oid: u64) -> Option<CommitVisibility> {
    let replayer = EventReplayer::from_event_log_db(db);
    let cursor = replayer.make_default_cursor();
    replayer.get_cursor_commit_visibility(cursor, NonZeroOid { num: oid })
}

#[test]
fn test_hide_then_unhide_is_visible() {
    // commit `test1` with id X = 2; hide X, then unhide X
    let repo = repo_with(
        vec![commit(1, vec![], 10, "initial", 101), commit(2, vec![1], 20, "create test1", 102)],
        2,
        1,
    );
    let mut db = log_with_commits(&[2]);
    let mut mbdb = MergeBaseDb::new();
    let mut output = Vec::new();
    let x = NonZeroOid { num: 2 }.to_text();
    let exit = hide_commits(&repo, &mut db, &mut mbdb, 100, vec![x.clone()], false, &mut output);
    assert_eq!(exit, 0);
    assert_eq!(visibility(&db, 2), Some(CommitVisibility::Hidden));
    assert!(output[0].starts_with("Hid commit: "));
    let exit = unhide(&repo, &mut db, &mut mbdb, 101, vec![x], false, &mut output);
    assert_eq!(exit, 0);
    assert_eq!(visibility(&db, 2), Some(CommitVisibility::Visible));
}

#[test]
fn test_hide_unknown_commit_fails() {
    let repo = repo_with(vec![commit(1, vec![], 10, "initial", 101)], 1, 1);
    let mut db = EventLogDb::new();
    let mut mbdb = MergeBaseDb::new();
    let mut output = Vec::new();
    let before = db.get_events().len();
    let exit = hide_commits(
        &repo,
        &mut db,
        &mut mbdb,
        100,
        vec![String::from("doesnotexist")],
        false,
        &mut output,
    );
    assert_eq!(exit, 1);
    assert_eq!(db.get_events().len(), before);
    assert_eq!(output[0], "Commit not found: doesnotexist");
}

#[test]
fn test_recursive_hide_hides_chain() {
    // A(2) <- B(3) <- C(4), all visible; hide A recursively
    let repo = repo_with(
        vec![
            commit(1, vec![], 10, "initial", 101),
            commit(2, vec![1], 20, "a", 102),
            commit(3, vec![2], 30, "b", 103),
            commit(4, vec![3], 40, "c", 104),
        ],
        4,
        1,
    );
    let mut db = log_with_commits(&[2, 3, 4]);
    let before = db.get_events().len();
    let mut mbdb = MergeBaseDb::new();
    let mut output = Vec::new();
    let a = NonZeroOid { num: 2 }.to_text();
    let exit = hide_commits(&repo, &mut db, &mut mbdb, 100, vec![a], true, &mut output);
    assert_eq!(exit, 0);
    let events = db.get_events();
    assert_eq!(events.len(), before + 3);
    let mut tx_ids = Vec::new();
    for e in &events[before..] {
        match e {
            Event::HideEvent { event_tx_id, .. } => tx_ids.push(*event_tx_id),
            other => panic!("expected a hide event, got {:?}", other),
        }
    }
    assert_eq!(tx_ids.len(), 3);
    assert!(tx_ids.iter().all(|t| *t == tx_ids[0]));
    assert_eq!(visibility(&db, 2), Some(CommitVisibility::Hidden));
    assert_eq!(visibility(&db, 3), Some(CommitVisibility::Hidden));
    assert_eq!(visibility(&db, 4), Some(CommitVisibility::Hidden));
}

#[test]
fn test_ambiguous_next() {
    // HEAD at A(2); children B1(3, older) and B2(4, newer)
    let repo_template = || {
        repo_with(
            vec![
                commit(1, vec![], 10, "initial", 101),
                commit(2, vec![1], 20, "a", 102),
                commit(3, vec![2], 30, "b1", 103),
                commit(4, vec![2], 40, "b2", 104),
            ],
            2,
            1,
        )
    };
    let mut mbdb = MergeBaseDb::new();

    let mut repo = repo_template();
    let mut db = log_with_commits(&[2, 3, 4]);
    let mut output = Vec::new();
    let exit = next(&mut repo, &mut db, &mut mbdb, 100, None, None, &mut output);
    assert_eq!(exit, 1);
    assert_eq!(repo.head_oid, 2);
    let listing = output.join("\n");
    assert!(listing.contains("Found multiple possible next commits"));
    assert!(listing.contains("0000000000000003"));
    assert!(listing.contains("0000000000000004"));
    assert!(listing.contains("(oldest)"));
    assert!(listing.contains("(newest)"));

    let mut repo = repo_template();
    let mut db = log_with_commits(&[2, 3, 4]);
    let mut output = Vec::new();
    let exit = next(
        &mut repo,
        &mut db,
        &mut mbdb,
        100,
        None,
        Some(Towards::Oldest),
        &mut output,
    );
    assert_eq!(exit, 0);
    assert_eq!(repo.head_oid, 3);

    let mut repo = repo_template();
    let mut db = log_with_commits(&[2, 3, 4]);
    let mut output = Vec::new();
    let exit = next(
        &mut repo,
        &mut db,
        &mut mbdb,
        100,
        None,
        Some(Towards::Newest),
        &mut output,
    );
    assert_eq!(exit, 0);
    assert_eq!(repo.head_oid, 4);
}

#[test]
fn test_prev_steps_back() {
    let mut repo = repo_with(
        vec![
            commit(1, vec![], 10, "initial", 101),
            commit(2, vec![1], 20, "a", 102),
            commit(3, vec![2], 30, "b", 103),
        ],
        3,
        1,
    );
    let mut db = log_with_commits(&[2, 3]);
    let before = db.get_events().len();
    let mut mbdb = MergeBaseDb::new();
    let mut output = Vec::new();
    let exit = prev(&mut repo, &mut db, &mut mbdb, 100, None, &mut output);
    assert_eq!(exit, 0);
    assert_eq!(repo.head_oid, 2);
    // the checkout is recorded as one reference update
    let events = db.get_events();
    assert_eq!(events.len(), before + 1);
    match &events[before] {
        Event::RefUpdateEvent { ref_name, old_oid, new_oid, .. } => {
            assert_eq!(ref_name, "HEAD");
            assert_eq!(*old_oid, 3);
            assert_eq!(*new_oid, 2);
        }
        other => panic!("expected a reference update, got {:?}", other),
    }
    // going back beyond the root fails without changes
    let mut output = Vec::new();
    let exit = prev(&mut repo, &mut db, &mut mbdb, 101, Some(9), &mut output);
    assert_eq!(exit, 1);
    assert_eq!(repo.head_oid, 2);
}

#[test]
fn test_move_noop() {
    // X(3)'s parent already is Y(2): nothing to do
    let mut repo = repo_with(
        vec![
            commit(1, vec![], 10, "initial", 101),
            commit(2, vec![1], 20, "y", 102),
            commit(3, vec![2], 30, "x", 103),
        ],
        3,
        1,
    );
    let mut db = log_with_commits(&[2, 3]);
    let before = db.get_events().len();
    let mut mbdb = MergeBaseDb::new();
    let config = Config::new();
    let mut output = Vec::new();
    let exit = move_commits(
        &mut repo,
        &mut db,
        &mut mbdb,
        &config,
        100,
        Some(NonZeroOid { num: 3 }.to_text()),
        Some(NonZeroOid { num: 2 }.to_text()),
        None,
        false,
        false,
        false,
        false,
        &mut output,
    );
    assert_eq!(exit, 0);
    assert_eq!(output[output.len() - 1], "Nothing to do.");
    assert_eq!(db.get_events().len(), before);
    assert_eq!(repo.commits.len(), 3);
}

#[test]
fn test_move_source_and_base_conflict() {
    let mut repo = repo_with(vec![commit(1, vec![], 10, "initial", 101)], 1, 1);
    let mut db = EventLogDb::new();
    let mut mbdb = MergeBaseDb::new();
    let config = Config::new();
    let mut output = Vec::new();
    let exit = move_commits(
        &mut repo,
        &mut db,
        &mut mbdb,
        &config,
        100,
        Some(String::from("a")),
        None,
        Some(String::from("b")),
        false,
        false,
        false,
        false,
        &mut output,
    );
    assert_eq!(exit, 1);
    assert_eq!(output[0], "The --source and --base options cannot both be provided.");
}

#[test]
fn test_move_with_patch_id_dedup() {
    // subtree {P(3), patch 77}; the destination 4 already carries patch 77
    let repo = repo_with(
        vec![
            commit(1, vec![], 10, "initial", 101),
            commit(2, vec![1], 20, "base", 102),
            commit(3, vec![2], 30, "p", 77),
            commit(4, vec![1], 40, "existing", 77),
        ],
        3,
        1,
    );
    let db = log_with_commits(&[2, 3, 4]);
    let replayer = EventReplayer::from_event_log_db(&db);
    let cursor = replayer.make_default_cursor();
    let mut mbdb = MergeBaseDb::new();
    let branch_oids: Vec<u64> = vec![1];
    let graph = make_graph(
        &repo,
        &mut mbdb,
        &replayer,
        cursor,
        &HeadOid(Some(NonZeroOid { num: 3 })),
        &MainBranchOid(NonZeroOid { num: 1 }),
        &BranchOids(branch_oids),
        true,
    );
    let plan = build_rebase_plan(
        &repo,
        &graph,
        NonZeroOid { num: 3 },
        NonZeroOid { num: 4 },
        &BuildRebasePlanOptions {
            dump_rebase_constraints: false,
            dump_rebase_plan: false,
            detect_duplicate_commits_via_patch_id: true,
        },
    )
    .unwrap()
    .unwrap();
    for step in &plan.steps {
        match step {
            RebaseStep::Pick { commit_oid } => {
                assert_ne!(commit_oid.num, 3, "the duplicate commit must not be picked");
            }
            _ => {}
        }
    }
    assert_eq!(plan.rewritten_oids.len(), 1);
    assert_eq!(plan.rewritten_oids[0].0.num, 3);
    assert_eq!(plan.rewritten_oids[0].1.num, 4);
}

#[test]
fn test_move_executes_picks() {
    // move subtree X(3) onto dest 4 (disjoint branch): one new commit
    let mut repo = repo_with(
        vec![
            commit(1, vec![], 10, "initial", 101),
            commit(2, vec![1], 20, "base", 102),
            commit(3, vec![2], 30, "x", 103),
            commit(4, vec![1], 40, "dest", 104),
        ],
        3,
        1,
    );
    let mut db = log_with_commits(&[2, 3, 4]);
    let before_commits = repo.commits.len();
    let mut mbdb = MergeBaseDb::new();
    let config = Config::new();
    let mut output = Vec::new();
    let exit = move_commits(
        &mut repo,
        &mut db,
        &mut mbdb,
        &config,
        100,
        Some(NonZeroOid { num: 3 }.to_text()),
        Some(NonZeroOid { num: 4 }.to_text()),
        None,
        false,
        false,
        false,
        false,
        &mut output,
    );
    assert_eq!(exit, 0);
    assert_eq!(repo.commits.len(), before_commits + 1);
    let new = repo.commits.last().unwrap();
    assert_eq!(new.parents.len(), 1);
    assert_eq!(new.parents[0].num, 4);
    assert_eq!(new.patch_id, 103);
    // HEAD followed the rewritten commit
    assert_eq!(repo.head_oid, new.oid.num);
    // the rewrite was recorded
    let mut saw_rewrite = false;
    for e in db.get_events() {
        if let Event::RewriteEvent { old_commit_oid, new_commit_oid, .. } = e {
            if old_commit_oid.num == 3 && new_commit_oid.num == new.oid.num {
                saw_rewrite = true;
            }
        }
    }
    assert!(saw_rewrite);
}

#[test]
fn test_smartlog_shows_commits() {
    let repo = repo_with(
        vec![commit(1, vec![], 10, "initial", 101), commit(2, vec![1], 20, "work", 102)],
        2,
        1,
    );
    let db = log_with_commits(&[2]);
    let mut mbdb = MergeBaseDb::new();
    let mut output = Vec::new();
    let exit = smartlog(&repo, &db, &mut mbdb, &mut output);
    assert_eq!(exit, 0);
    let text = output.join("\n");
    assert!(text.contains("O 0000000000000001 initial"));
    assert!(text.contains("@ 0000000000000002 work"));
}

#[test]
fn test_undo_navigate() {
    // two commits from the initial state; undo back two transactions
    let mut repo = repo_with(
        vec![
            commit(1, vec![], 10, "initial", 101),
            commit(2, vec![1], 20, "create test1", 102),
            commit(3, vec![2], 30, "create test2", 103),
        ],
        3,
        3,
    );
    let mut db = EventLogDb::new();
    let tx1 = db.make_transaction_id(0, "commit");
    db.add_events(vec![
        Event::CommitEvent { timestamp: 0, event_tx_id: tx1, commit_oid: NonZeroOid { num: 1 } },
        Event::RefUpdateEvent {
            timestamp: 0,
            event_tx_id: tx1,
            ref_name: String::from("HEAD"),
            old_oid: 0,
            new_oid: 1,
            message: None,
        },
        Event::RefUpdateEvent {
            timestamp: 0,
            event_tx_id: tx1,
            ref_name: String::from("master"),
            old_oid: 0,
            new_oid: 1,
            message: None,
        },
    ]);
    let tx2 = db.make_transaction_id(0, "commit");
    db.add_events(vec![
        Event::CommitEvent { timestamp: 0, event_tx_id: tx2, commit_oid: NonZeroOid { num: 2 } },
        Event::RefUpdateEvent {
            timestamp: 0,
            event_tx_id: tx2,
            ref_name: String::from("HEAD"),
            old_oid: 1,
            new_oid: 2,
            message: None,
        },
        Event::RefUpdateEvent {
            timestamp: 0,
            event_tx_id: tx2,
            ref_name: String::from("master"),
            old_oid: 1,
            new_oid: 2,
            message: None,
        },
    ]);
    let tx3 = db.make_transaction_id(0, "commit");
    db.add_events(vec![
        Event::CommitEvent { timestamp: 0, event_tx_id: tx3, commit_oid: NonZeroOid { num: 3 } },
        Event::RefUpdateEvent {
            timestamp: 0,
            event_tx_id: tx3,
            ref_name: String::from("HEAD"),
            old_oid: 2,
            new_oid: 3,
            message: None,
        },
        Event::RefUpdateEvent {
            timestamp: 0,
            event_tx_id: tx3,
            ref_name: String::from("master"),
            old_oid: 2,
            new_oid: 3,
            message: None,
        },
    ]);
    // select the state two transactions in the past
    let replayer = EventReplayer::from_event_log_db(&db);
    let end = replayer.make_default_cursor();
    let c1 = replayer.retreat_cursor(end).unwrap();
    let cursor = replayer.retreat_cursor(c1).unwrap();
    assert_eq!(cursor.event_id, 4);
    let before_commits = repo.commits.len();
    let before_events = db.get_events().len();
    let mut output = Vec::new();
    let exit = undo_events(&mut repo, &mut db, 200, cursor, &mut output);
    assert_eq!(exit, 0);
    // HEAD and master are back at the prior state
    assert_eq!(repo.head_oid, 1);
    let master = String::from("master");
    assert_eq!(repo.get_branch_oid(&master), Some(1));
    // no commit was touched (the working copy stays clean)
    assert_eq!(repo.commits.len(), before_commits);
    // the inverse events landed as one transaction
    let events = db.get_events();
    assert!(events.len() > before_events);
    let mut txs = Vec::new();
    for e in &events[before_events..] {
        match e {
            Event::RefUpdateEvent { event_tx_id, .. } => txs.push(*event_tx_id),
            Event::HideEvent { event_tx_id, .. } => txs.push(*event_tx_id),
            Event::UnhideEvent { event_tx_id, .. } => txs.push(*event_tx_id),
            other => panic!("unexpected inverse event {:?}", other),
        }
    }
    assert!(txs.iter().all(|t| *t == txs[0]));
    // replaying the full log agrees with the restored state
    let replayer = EventReplayer::from_event_log_db(&db);
    let end = replayer.make_default_cursor();
    assert_eq!(replayer.get_cursor_ref_state(end, &master), Some(1));
    assert_ne!(
        replayer.get_cursor_commit_visibility(end, NonZeroOid { num: 2 }),
        Some(CommitVisibility::Visible)
    );
    assert_ne!(
        replayer.get_cursor_commit_visibility(end, NonZeroOid { num: 3 }),
        Some(CommitVisibility::Visible)
    );
}

#[test]
fn test_undo_refuses_missing_commit() {
    // undoing would recreate `feature` at a commit the repository no longer
    // holds
    let mut repo = repo_with(vec![commit(1, vec![], 10, "initial", 101)], 1, 1);
    let mut db = EventLogDb::new();
    let tx0 = db.make_transaction_id(0, "branch");
    db.add_events(vec![
        Event::RefUpdateEvent {
            timestamp: 0,
            event_tx_id: tx0,
            ref_name: String::from("feature"),
            old_oid: 0,
            new_oid: 99,
            message: None,
        },
        Event::RefUpdateEvent {
            timestamp: 0,
            event_tx_id: tx0,
            ref_name: String::from("feature"),
            old_oid: 99,
            new_oid: 0,
            message: None,
        },
    ]);
    let before = db.get_events().len();
    let cursor = EventCursor { event_id: 2 };
    let mut output = Vec::new();
    let exit = undo_events(&mut repo, &mut db, 200, cursor, &mut output);
    assert_eq!(exit, 1);
    assert_eq!(
        output[output.len() - 1],
        "Cannot undo: an event refers to a commit the repository no longer holds."
    );
    assert_eq!(db.get_events().len(), before);
}

#[test]
fn test_undo_hide_restores_visibility() {
    let mut repo = repo_with(
        vec![commit(1, vec![], 10, "initial", 101), commit(2, vec![1], 20, "create test1", 102)],
        2,
        1,
    );
    let mut db = log_with_commits(&[2]);
    let mut mbdb = MergeBaseDb::new();
    let mut output = Vec::new();
    let x = NonZeroOid { num: 2 }.to_text();
    let exit = hide_commits(&repo, &mut db, &mut mbdb, 100, vec![x], false, &mut output);
    assert_eq!(exit, 0);
    assert_eq!(visibility(&db, 2), Some(CommitVisibility::Hidden));
    // undo the hide transaction
    let replayer = EventReplayer::from_event_log_db(&db);
    let end = replayer.make_default_cursor();
    let cursor = replayer.retreat_cursor(end).unwrap();
    let mut output = Vec::new();
    let exit = undo_events(&mut repo, &mut db, 200, cursor, &mut output);
    assert_eq!(exit, 0);
    assert_eq!(visibility(&db, 2), Some(CommitVisibility::Visible));
    assert_eq!(repo.commits.len(), 2);
}

#[test]
fn test_move_rejects_invalid_config_value() {
    // a set but unparseable preserve-timestamps value stops the move
    let mut repo = repo_with(
        vec![
            commit(1, vec![], 10, "initial", 101),
            commit(2, vec![1], 20, "base", 102),
            commit(3, vec![2], 30, "x", 103),
            commit(4, vec![1], 40, "dest", 104),
        ],
        3,
        1,
    );
    let mut db = log_with_commits(&[2, 3, 4]);
    let before = db.get_events().len();
    let mut mbdb = MergeBaseDb::new();
    let mut config = Config::new();
    config.set(
        "branchless.restack.preserveTimestamps",
        branchless::config::ConfigValue::from_text("maybe"),
    );
    let mut output = Vec::new();
    let exit = move_commits(
        &mut repo,
        &mut db,
        &mut mbdb,
        &config,
        100,
        Some(NonZeroOid { num: 3 }.to_text()),
        Some(NonZeroOid { num: 4 }.to_text()),
        None,
        false,
        false,
        false,
        false,
        &mut output,
    );
    assert_eq!(exit, 1);
    assert_eq!(db.get_events().len(), before);
    assert_eq!(
        output[output.len() - 1],
        "Invalid configuration value for key: branchless.restack.preserveTimestamps"
    );
}

#[test]
fn test_undo_refuses_deleting_main_branch() {
    // undoing past the main branch's creation would delete it
    let mut repo = repo_with(vec![commit(1, vec![], 10, "initial", 101)], 1, 1);
    let mut db = EventLogDb::new();
    let tx = db.make_transaction_id(0, "branch");
    db.add_events(vec![Event::RefUpdateEvent {
        timestamp: 0,
        event_tx_id: tx,
        ref_name: String::from("master"),
        old_oid: 0,
        new_oid: 1,
        message: None,
    }]);
    let before = db.get_events().len();
    let mut output = Vec::new();
    let exit = undo_events(&mut repo, &mut db, 200, EventCursor { event_id: 1 }, &mut output);
    assert_eq!(exit, 1);
    assert_eq!(db.get_events().len(), before);
    assert_eq!(
        output[output.len() - 1],
        "Cannot undo: the main branch would be deleted."
    );
    assert_eq!(repo.get_branch_oid(&String::from("master")), Some(1));
}

#[test]
fn test_recursive_hide_keeps_input_order() {
    // two independent children of the root; hiding [b, a] recursively
    // appends b's event before a's, in the inputs' order
    let repo = repo_with(
        vec![
            commit(1, vec![], 10, "initial", 101),
            commit(2, vec![1], 20, "a", 102),
            commit(3, vec![1], 30, "b", 103),
        ],
        1,
        1,
    );
    let mut db = log_with_commits(&[2, 3]);
    let before = db.get_events().len();
    let mut mbdb = MergeBaseDb::new();
    let mut output = Vec::new();
    let b = NonZeroOid { num: 3 }.to_text();
    let a = NonZeroOid { num: 2 }.to_text();
    let exit = hide_commits(&repo, &mut db, &mut mbdb, 100, vec![b, a], true, &mut output);
    assert_eq!(exit, 0);
    let events = db.get_events();
    assert_eq!(events.len(), before + 2);
    match (&events[before], &events[before + 1]) {
        (
            Event::HideEvent { commit_oid: first, .. },
            Event::HideEvent { commit_oid: second, .. },
        ) => {
            assert_eq!(first.num, 3);
            assert_eq!(second.num, 2);
        }
        other => panic!("expected two hide events, got {:?}", other),
    }
}
