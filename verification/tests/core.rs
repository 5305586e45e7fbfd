use branchless::config::{Config, ConfigValue};
use branchless::eventlog::{CommitVisibility, Event, EventCursor, EventLogDb, EventReplayer};
use branchless::mergebase::MergeBaseDb;
use branchless::oid::u64_to_hex_text;
use branchless::graph::{make_graph, BranchOids, HeadOid, MainBranchOid};
use branchless::repo::{CommitData, RefEntry, Repo};
use branchless::rewrite::{build_rebase_plan, BuildRebasePlanError, BuildRebasePlanOptions};
use branchless::NonZeroOid;

fn commit(oid: u64, parents: Vec<u64>, time: u64, msg: &str, patch: u64) -> CommitData {
    CommitData {
        oid: NonZeroOid { num: oid },
        parents: parents.into_iter().map(|p| NonZeroOid { num: p }).collect(),
        committer_time: time,
        message: String::from(msg),
        patch_id: patch,
    }
}

fn linear_repo() -> Repo {
    Repo {
        commits: vec![
            commit(1, vec![], 10, "initial", 101),
            commit(2, vec![1], 20, "second", 102),
            commit(3, vec![2], 30, "third", 103),
        ],
        branches: vec![RefEntry { name: String::from("master"), oid: NonZeroOid { num: 1 } }],
        head_oid: 3,
        main_branch_name: String::from("master"),
    }
}

fn log_with_commits(oids: &[u64]) -> EventLogDb {
    let mut db = EventLogDb::new();
    let tx = db.make_transaction_id(0, "commit");
    let mut events = Vec::new();
    for &o in oids {
        events.push(Event::CommitEvent {
            timestamp: 0,
            event_tx_id: tx,
            commit_oid: NonZeroOid { num: o },
        });
    }
    db.add_events(events);
    db
}

#[test]
fn test_hex_rendering() {
    assert_eq!(u64_to_hex_text(0), "0000000000000000");
    assert_eq!(u64_to_hex_text(255), "00000000000000ff");
    assert_eq!(u64_to_hex_text(0x1234abcd), "000000001234abcd");
    assert_eq!(NonZeroOid { num: 2 }.to_text(), "0000000000000002");
}

#[test]
fn test_event_ids_grow_across_appends() {
    // ids are assigned by position, so a later append only ever extends
    let mut db = EventLogDb::new();
    let tx1 = db.make_transaction_id(0, "a");
    db.add_events(vec![Event::CommitEvent {
        timestamp: 0,
        event_tx_id: tx1,
        commit_oid: NonZeroOid { num: 2 },
    }]);
    let len1 = db.get_events().len();
    let tx2 = db.make_transaction_id(0, "b");
    assert!(tx2 > tx1);
    db.add_events(vec![Event::CommitEvent {
        timestamp: 0,
        event_tx_id: tx2,
        commit_oid: NonZeroOid { num: 3 },
    }]);
    let len2 = db.get_events().len();
    assert_eq!(len1, 1);
    assert_eq!(len2, 2);
    match &db.get_events()[0] {
        Event::CommitEvent { commit_oid, .. } => assert_eq!(commit_oid.num, 2),
        _ => panic!("unexpected event"),
    }
}

#[test]
fn test_replay_determinism() {
    let db = log_with_commits(&[2, 3]);
    let replayer = EventReplayer::from_event_log_db(&db);
    let cursor = replayer.make_default_cursor();
    let v1 = replayer.get_cursor_commit_visibility(cursor, NonZeroOid { num: 2 });
    let v2 = replayer.get_cursor_commit_visibility(cursor, NonZeroOid { num: 2 });
    assert_eq!(v1, Some(CommitVisibility::Visible));
    assert_eq!(v1, v2);
    let unknown = replayer.get_cursor_commit_visibility(cursor, NonZeroOid { num: 77 });
    assert_eq!(unknown, None);
}

#[test]
fn test_visibility_follows_last_event() {
    let mut db = EventLogDb::new();
    let tx = db.make_transaction_id(0, "mixed");
    db.add_events(vec![
        Event::CommitEvent { timestamp: 0, event_tx_id: tx, commit_oid: NonZeroOid { num: 5 } },
        Event::HideEvent { timestamp: 0, event_tx_id: tx, commit_oid: NonZeroOid { num: 5 } },
        Event::UnhideEvent { timestamp: 0, event_tx_id: tx, commit_oid: NonZeroOid { num: 5 } },
    ]);
    let replayer = EventReplayer::from_event_log_db(&db);
    // cursor after the hide sees it hidden; the default cursor sees it visible
    let mid = EventCursor { event_id: 3 };
    assert_eq!(
        replayer.get_cursor_commit_visibility(mid, NonZeroOid { num: 5 }),
        Some(CommitVisibility::Hidden)
    );
    let end = replayer.make_default_cursor();
    assert_eq!(
        replayer.get_cursor_commit_visibility(end, NonZeroOid { num: 5 }),
        Some(CommitVisibility::Visible)
    );
}

#[test]
fn test_rewrite_event_visibility() {
    let mut db = EventLogDb::new();
    let tx = db.make_transaction_id(0, "rewrite");
    db.add_events(vec![Event::RewriteEvent {
        timestamp: 0,
        event_tx_id: tx,
        old_commit_oid: NonZeroOid { num: 5 },
        new_commit_oid: NonZeroOid { num: 6 },
    }]);
    let replayer = EventReplayer::from_event_log_db(&db);
    let end = replayer.make_default_cursor();
    assert_eq!(
        replayer.get_cursor_commit_visibility(end, NonZeroOid { num: 5 }),
        Some(CommitVisibility::Hidden)
    );
    assert_eq!(
        replayer.get_cursor_commit_visibility(end, NonZeroOid { num: 6 }),
        Some(CommitVisibility::Visible)
    );
}

#[test]
fn test_ref_state_and_deletion() {
    let mut db = EventLogDb::new();
    let tx = db.make_transaction_id(0, "refs");
    db.add_events(vec![
        Event::RefUpdateEvent {
            timestamp: 0,
            event_tx_id: tx,
            ref_name: String::from("feature"),
            old_oid: 0,
            new_oid: 4,
            message: None,
        },
        Event::RefUpdateEvent {
            timestamp: 0,
            event_tx_id: tx,
            ref_name: String::from("feature"),
            old_oid: 4,
            new_oid: 0,
            message: None,
        },
    ]);
    let replayer = EventReplayer::from_event_log_db(&db);
    let mid = EventCursor { event_id: 2 };
    let name = String::from("feature");
    assert_eq!(replayer.get_cursor_ref_state(mid, &name), Some(4));
    let end = replayer.make_default_cursor();
    assert_eq!(replayer.get_cursor_ref_state(end, &name), None);
}

#[test]
fn test_cursor_navigation_boundaries() {
    let mut db = EventLogDb::new();
    let tx1 = db.make_transaction_id(0, "one");
    db.add_events(vec![
        Event::CommitEvent { timestamp: 0, event_tx_id: tx1, commit_oid: NonZeroOid { num: 2 } },
        Event::CommitEvent { timestamp: 0, event_tx_id: tx1, commit_oid: NonZeroOid { num: 3 } },
    ]);
    let tx2 = db.make_transaction_id(0, "two");
    db.add_events(vec![Event::CommitEvent {
        timestamp: 0,
        event_tx_id: tx2,
        commit_oid: NonZeroOid { num: 4 },
    }]);
    let replayer = EventReplayer::from_event_log_db(&db);
    let end = replayer.make_default_cursor();
    assert_eq!(end.event_id, 4);
    let back = replayer.retreat_cursor(end).unwrap();
    assert_eq!(back.event_id, 3);
    let back2 = replayer.retreat_cursor(back).unwrap();
    assert_eq!(back2.event_id, 1);
    let fwd = replayer.advance_cursor(back2).unwrap();
    assert_eq!(fwd.event_id, 3);
    // an out-of-range cursor is rejected
    assert!(replayer.advance_cursor(EventCursor { event_id: 99 }).is_err());
    assert!(replayer.retreat_cursor(EventCursor { event_id: 0 }).is_err());
}

#[test]
fn test_merge_base_and_path() {
    // 1 <- 2 <- 3 and 1 <- 4: merge base of 3 and 4 is 1
    let repo = Repo {
        commits: vec![
            commit(1, vec![], 10, "root", 101),
            commit(2, vec![1], 20, "a", 102),
            commit(3, vec![2], 30, "b", 103),
            commit(4, vec![1], 25, "c", 104),
        ],
        branches: vec![RefEntry { name: String::from("master"), oid: NonZeroOid { num: 1 } }],
        head_oid: 3,
        main_branch_name: String::from("master"),
    };
    let mut mbdb = MergeBaseDb::new();
    assert_eq!(mbdb.get_merge_base_oid(&repo, 3, 4), Some(1));
    // memoized second call agrees
    assert_eq!(mbdb.get_merge_base_oid(&repo, 3, 4), Some(1));
    let path = mbdb.find_path_to_merge_base(&repo, 3, 4).unwrap();
    assert_eq!(path, vec![3, 2, 1]);
}

#[test]
fn test_config_round_trips() {
    let mut config = Config::new();
    assert_eq!(
        branchless::config::get_restack_preserve_timestamps(&config),
        Ok(false)
    );
    assert_eq!(
        branchless::config::get_hint_smartlog_fix_abandoned(&config),
        Ok(true)
    );
    config.set(
        "branchless.restack.preserveTimestamps",
        ConfigValue::from_bool(true),
    );
    assert_eq!(
        branchless::config::get_restack_preserve_timestamps(&config),
        Ok(true)
    );
    config.set("user.name", ConfigValue::from_text("someone"));
    let name = config.get::<String>("user.name");
    assert_eq!(name, Ok(Some(String::from("someone"))));
    let missing = config.get::<String>("user.email");
    assert_eq!(missing, Ok(None));
    // git's boolean literals parse
    for yes in ["true", "yes", "on", "1"] {
        config.set("flag", ConfigValue::from_text(yes));
        assert_eq!(config.get_or::<bool>("flag", false), Ok(true));
    }
    for no in ["false", "no", "off", "0", ""] {
        config.set("flag", ConfigValue::from_text(no));
        assert_eq!(config.get_or::<bool>("flag", true), Ok(false));
    }
    // a set but unparseable value is an error, not an absent key
    config.set("flag", ConfigValue::from_text("neither"));
    match config.get_or::<bool>("flag", false) {
        Err(e) => {
            assert_eq!(e.describe(), "Invalid configuration value for key: flag");
        }
        other => panic!("expected an invalid-value error, got {:?}", other),
    }
    // removal unsets; removing a missing key is an error
    assert!(config.remove("user.name").is_ok());
    let gone = config.get::<String>("user.name");
    assert_eq!(gone, Ok(None));
    match config.remove("user.name") {
        Err(e) => {
            assert_eq!(e.describe(), "No configuration value for key: user.name");
        }
        other => panic!("expected a not-found error, got {:?}", other),
    }
    // rendering
    assert_eq!(ConfigValue::from_bool(false).to_text(), "false");
    assert_eq!(ConfigValue::from_text("x").to_text(), "x");
}

#[test]
fn test_resolve_commits_reports_first_missing() {
    let repo = linear_repo();
    let hashes = vec![NonZeroOid { num: 2 }.to_text(), String::from("zz")];
    match branchless::graph::resolve_commits(&repo, &hashes) {
        branchless::graph::ResolveCommitsResult::CommitNotFound { commit } => {
            assert_eq!(commit, "zz");
        }
        _ => panic!("expected a missing commit"),
    }
    let good = vec![NonZeroOid { num: 2 }.to_text()];
    match branchless::graph::resolve_commits(&repo, &good) {
        branchless::graph::ResolveCommitsResult::Found { commits } => {
            assert_eq!(commits.len(), 1);
            assert_eq!(commits[0].num, 2);
        }
        _ => panic!("expected a resolved commit"),
    }
}

#[test]
fn test_plan_rejects_dest_inside_subtree() {
    let repo = Repo {
        commits: vec![
            commit(1, vec![], 10, "root", 101),
            commit(2, vec![1], 20, "a", 102),
            commit(3, vec![2], 30, "b", 103),
        ],
        branches: vec![RefEntry { name: String::from("master"), oid: NonZeroOid { num: 1 } }],
        head_oid: 3,
        main_branch_name: String::from("master"),
    };
    let db = log_with_commits(&[2, 3]);
    let replayer = EventReplayer::from_event_log_db(&db);
    let cursor = replayer.make_default_cursor();
    let mut mbdb = MergeBaseDb::new();
    let graph = make_graph(
        &repo,
        &mut mbdb,
        &replayer,
        cursor,
        &HeadOid(Some(NonZeroOid { num: 3 })),
        &MainBranchOid(NonZeroOid { num: 1 }),
        &BranchOids(vec![1]),
        true,
    );
    // moving the subtree at 2 onto its own descendant 3 is refused
    let r = build_rebase_plan(
        &repo,
        &graph,
        NonZeroOid { num: 2 },
        NonZeroOid { num: 3 },
        &BuildRebasePlanOptions {
            dump_rebase_constraints: false,
            dump_rebase_plan: false,
            detect_duplicate_commits_via_patch_id: true,
        },
    );
    match r {
        Err(BuildRebasePlanError::SubtreeIncludesDest { dest_oid }) => {
            assert_eq!(dest_oid.num, 3);
        }
        _ => panic!("expected the destination to be rejected"),
    }
    let err = BuildRebasePlanError::CommitNotFound { oid: NonZeroOid { num: 9 } };
    let text = err.describe();
    assert!(text.starts_with("Commit not found: "));
}

#[test]
fn test_get_or_else_uses_stored_value() {
    let mut config = Config::new();
    config.set("answer", ConfigValue::from_text("stored"));
    let got = config.get_or_else::<String, _>("answer", || String::from("computed"));
    assert_eq!(got, Ok(String::from("stored")));
    let fallback = config.get_or_else::<String, _>("missing", || String::from("computed"));
    assert_eq!(fallback, Ok(String::from("computed")));
}
