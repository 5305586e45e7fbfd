//! The undo synthesizer.
//!
//! Given a past cursor, fold the events since it into their collapsed
//! inverses: one reference update per touched reference, from its current
//! value back to its value at the cursor, and one visibility event per
//! touched commit, restoring whether it was visible at the cursor. The
//! inverses are applied to the references and appended to the log as one
//! transaction; no commit is created, changed, or deleted.

use vstd::prelude::*;
use crate::eventlog::{
    cursor_wf, lemma_ref_prefix_agree, lemma_ref_prefix_set_suffix, lemma_ref_prefix_untouched,
    lemma_vis_prefix_agree, lemma_vis_prefix_hidden_suffix, lemma_vis_prefix_untouched,
    lemma_vis_prefix_visible_suffix, log_capacity, log_wf, ref_prefix, vis_prefix,
    CommitVisibility, Event, EventCursor, EventLogDb, EventReplayer,
};
use crate::oid::NonZeroOid;
use crate::repo::{branch_lookup, has_commit, Repo};

verus! {

/// Whether some planned event updates the reference.
pub open spec fn planned_covers_ref(planned: Seq<Event>, name: Seq<char>) -> bool {
    exists|i: int| 0 <= i < planned.len() && (#[trigger] planned[i]).touches_ref(name)
}

/// Whether some planned event touches the commit.
pub open spec fn planned_covers_commit(planned: Seq<Event>, o: u64) -> bool {
    exists|i: int| 0 <= i < planned.len() && (#[trigger] planned[i]).touches_commit(o)
}

/// Whether some event in `[m, k)` updates the reference.
pub open spec fn segment_touches_ref(log: Seq<Event>, m: int, k: int, name: Seq<char>) -> bool {
    exists|k2: int| m <= k2 < k && (#[trigger] log[k2]).touches_ref(name)
}

/// Whether some event in `[m, k)` touches the commit.
pub open spec fn segment_touches_commit(log: Seq<Event>, m: int, k: int, o: u64) -> bool {
    exists|k2: int| m <= k2 < k && (#[trigger] log[k2]).touches_commit(o)
}

/// The value a reference's collapsed inverse sets it to: its value at the
/// cursor position, zero for deletion.
pub open spec fn undo_ref_target(log: Seq<Event>, m: int, name: Seq<char>) -> u64 {
    match ref_prefix(log, m, name) {
        Some(v) => v,
        None => 0,
    }
}

/// Whether a reference's collapsed inverse cannot be applied: HEAD may
/// move to zero or an existing commit; a branch may move to an existing
/// commit or be deleted, but never the main branch.
pub open spec fn undo_move_blocked(repo: Repo, log: Seq<Event>, m: int, name: Seq<char>) -> bool {
    if name == "HEAD"@ {
        undo_ref_target(log, m, name) != 0 && !has_commit(
            repo.commits@,
            undo_ref_target(log, m, name),
        )
    } else if undo_ref_target(log, m, name) == 0 {
        name == repo.main_branch_name@
    } else {
        !has_commit(repo.commits@, undo_ref_target(log, m, name))
    }
}

/// Whether any reference touched at or past the cursor blocks the undo.
pub open spec fn undo_blocked(repo: Repo, log: Seq<Event>, m: int) -> bool {
    exists|name: Seq<char>|
        #[trigger] segment_touches_ref(log, m, log.len() as int, name) && undo_move_blocked(
            repo,
            log,
            m,
            name,
        )
}

/// Whether one of the first `i` planned events updates the reference.
pub open spec fn covers_ref_upto(planned: Seq<Event>, i: int, name: Seq<char>) -> bool {
    exists|i2: int| 0 <= i2 < i && (#[trigger] planned[i2]).touches_ref(name)
}

/// Taking one more planned event covers exactly what it touches on top.
proof fn lemma_covers_step(planned: Seq<Event>, i: int, nm: Seq<char>)
    requires
        0 <= i < planned.len(),
    ensures
        covers_ref_upto(planned, i + 1, nm) == (covers_ref_upto(planned, i, nm)
            || planned[i].touches_ref(nm)),
{
    if covers_ref_upto(planned, i + 1, nm) {
        let w = choose|w: int| 0 <= w < i + 1 && (#[trigger] planned[w]).touches_ref(nm);
        if w < i {
            assert(covers_ref_upto(planned, i, nm));
        }
    }
    if covers_ref_upto(planned, i, nm) {
        let w = choose|w: int| 0 <= w < i && (#[trigger] planned[w]).touches_ref(nm);
        assert((#[trigger] planned[w]).touches_ref(nm) && 0 <= w < i + 1);
    }
    if planned[i].touches_ref(nm) {
        assert((#[trigger] planned[i]).touches_ref(nm) && 0 <= i < i + 1);
    }
}

/// A name touched within a segment is touched within any longer one.
proof fn lemma_segment_grow(log: Seq<Event>, m: int, k: int, nm: Seq<char>)
    requires
        segment_touches_ref(log, m, k, nm),
    ensures
        segment_touches_ref(log, m, k + 1, nm),
{
    let w = choose|w: int| m <= w < k && (#[trigger] log[w]).touches_ref(nm);
    assert(m <= w < k + 1 && (#[trigger] log[w]).touches_ref(nm));
}

/// What a planned inverse event promises relative to the old log and the
/// past cursor position `m`.
pub open spec fn inverse_ok(old_log: Seq<Event>, m: int, tx: u64, e: Event) -> bool {
    &&& e.tx_id() == tx
    &&& (forall|name: Seq<char>|
        #[trigger] e.touches_ref(name) ==> e.ref_value_after() == ref_prefix(old_log, m, name))
    &&& (forall|o: u64|
        #[trigger] e.touches_commit(o) ==> e.makes_visible(o) == (vis_prefix(old_log, m, o)
            == Some(CommitVisibility::Visible)))
}

/// Undo back to a past cursor: apply the collapsed inverses of every event
/// at or past the cursor, so that afterwards every reference reads as it
/// did at the cursor and exactly the commits visible at the cursor are
/// visible. The inverses land in the log as one fresh transaction. The
/// commit table is never touched, so a clean working copy stays clean.
#[verifier::loop_isolation(false)]
#[verifier::rlimit(100)]
#[verifier::spinoff_prover]
pub fn undo_events(
    repo: &mut Repo,
    event_log_db: &mut EventLogDb,
    now: u64,
    event_cursor: EventCursor,
    output: &mut Vec<String>,
) -> (exit: isize)
    requires
        old(repo).wf(),
        log_wf(old(event_log_db)@),
        3 * old(event_log_db)@.len() + 2 < log_capacity(),
        old(event_log_db).tx_counter() < u64::MAX,
        cursor_wf(old(event_log_db)@, event_cursor),
    ensures
        exit == 0 || exit == 1,
        final(repo).wf(),
        final(repo).commits@ == old(repo).commits@,
        final(repo).main_branch_name@ == old(repo).main_branch_name@,
        exit == 1 ==> final(event_log_db)@ == old(event_log_db)@ && final(repo).branches@ == old(
            repo,
        ).branches@ && final(repo).head_oid == old(repo).head_oid,
        exit == 1 <==> undo_blocked(*old(repo), old(event_log_db)@, event_cursor.event_id - 1),
        exit == 0 ==> {
            &&& (segment_touches_ref(
                old(event_log_db)@,
                event_cursor.event_id - 1,
                old(event_log_db)@.len() as int,
                "HEAD"@,
            ) ==> final(repo).head_oid == undo_ref_target(
                old(event_log_db)@,
                event_cursor.event_id - 1,
                "HEAD"@,
            ))
            &&& (!segment_touches_ref(
                old(event_log_db)@,
                event_cursor.event_id - 1,
                old(event_log_db)@.len() as int,
                "HEAD"@,
            ) ==> final(repo).head_oid == old(repo).head_oid)
            &&& (forall|name: Seq<char>|
                name != "HEAD"@ && #[trigger] segment_touches_ref(
                    old(event_log_db)@,
                    event_cursor.event_id - 1,
                    old(event_log_db)@.len() as int,
                    name,
                ) ==> branch_lookup(final(repo).branches@, name) == ref_prefix(
                    old(event_log_db)@,
                    event_cursor.event_id - 1,
                    name,
                ))
            &&& (forall|name: Seq<char>|
                name != "HEAD"@ && !(#[trigger] segment_touches_ref(
                    old(event_log_db)@,
                    event_cursor.event_id - 1,
                    old(event_log_db)@.len() as int,
                    name,
                )) ==> branch_lookup(final(repo).branches@, name) == branch_lookup(
                    old(repo).branches@,
                    name,
                ))
        },
        exit == 0 ==> {
            &&& forall|name: Seq<char>|
                #[trigger] ref_prefix(
                    final(event_log_db)@,
                    final(event_log_db)@.len() as int,
                    name,
                ) == ref_prefix(old(event_log_db)@, event_cursor.event_id - 1, name)
            &&& forall|o: u64|
                (#[trigger] vis_prefix(final(event_log_db)@, final(event_log_db)@.len() as int, o)
                    == Some(CommitVisibility::Visible)) <==> vis_prefix(
                    old(event_log_db)@,
                    event_cursor.event_id - 1,
                    o,
                ) == Some(CommitVisibility::Visible)
            &&& forall|i: int|
                0 <= i < old(event_log_db)@.len() ==> final(event_log_db)@[i] == old(
                    event_log_db,
                )@[i]
            &&& forall|i: int|
                old(event_log_db)@.len() <= i < final(event_log_db)@.len()
                    ==> (#[trigger] final(event_log_db)@[i]).tx_id() == old(
                    event_log_db,
                ).tx_counter() + 1
        },
{
    let event_replayer = EventReplayer::from_event_log_db(event_log_db);
    let len = event_replayer.len();
    let m: usize = (event_cursor.event_id - 1) as usize;
    let now_cursor = event_replayer.make_default_cursor();
    let tx = event_log_db.make_transaction_id(now, "undo");
    let ghost old_log = event_replayer.events();
    // fold the segment into its collapsed inverses
    let mut planned: Vec<Event> = Vec::new();
    let mut k: usize = m;
    while k < len
        invariant
            m <= k <= len,
            len == old_log.len(),
            event_replayer.events() == old_log,
            planned@.len() <= 2 * (k - m),
            forall|i: int|
                0 <= i < planned@.len() ==> inverse_ok(old_log, m as int, tx, #[trigger] planned@[i]),
            forall|name: Seq<char>|
                #[trigger] segment_touches_ref(old_log, m as int, k as int, name)
                    ==> planned_covers_ref(planned@, name),
            forall|o: u64|
                #[trigger] segment_touches_commit(old_log, m as int, k as int, o)
                    ==> planned_covers_commit(planned@, o),
            forall|i2: int, nm: Seq<char>|
                0 <= i2 < planned@.len() && #[trigger] planned@[i2].touches_ref(nm)
                    ==> segment_touches_ref(old_log, m as int, k as int, nm),
        decreases len - k,
    {
        let e = event_replayer.event_at(k);
        match e {
            Event::RefUpdateEvent { ref_name, .. } => {
                let name = ref_name.clone();
                let cur = event_replayer.get_cursor_ref_state(now_cursor, &name);
                let past = event_replayer.get_cursor_ref_state(event_cursor, &name);
                let cur_num: u64 = match cur {
                    Some(v) => v,
                    None => 0,
                };
                let past_num: u64 = match past {
                    Some(v) => v,
                    None => 0,
                };
                let ghost planned0 = planned@;
                let ev = Event::RefUpdateEvent {
                    timestamp: now,
                    event_tx_id: tx,
                    ref_name: name,
                    old_oid: cur_num,
                    new_oid: past_num,
                    message: None,
                };
                proof {
                    crate::eventlog::lemma_ref_prefix_nonzero(old_log, m as int, name@);
                    assert(ev.ref_value_after() == ref_prefix(old_log, m as int, name@));
                    assert(inverse_ok(old_log, m as int, tx, ev)) by {
                        assert forall|nm: Seq<char>| #[trigger] ev.touches_ref(nm) implies
                            ev.ref_value_after() == ref_prefix(old_log, m as int, nm) by {
                            assert(nm == name@);
                        }
                    }
                }
                planned.push(ev);
                proof {
                    lemma_planned_push(old_log, m as int, k as int, planned0, planned@, ev);
                    assert forall|nm: Seq<char>|
                        (#[trigger] old_log[k as int].touches_ref(nm)) implies planned_covers_ref(
                        planned@,
                        nm,
                    ) by {
                        assert(ev.touches_ref(nm));
                    }
                    assert(forall|o2: u64| !(#[trigger] old_log[k as int].touches_commit(o2)));
                    assert forall|i2: int, nm: Seq<char>|
                        0 <= i2 < planned@.len() && #[trigger] planned@[i2].touches_ref(
                            nm,
                        ) implies segment_touches_ref(old_log, m as int, k as int + 1, nm) by {
                        if i2 < planned0.len() {
                            assert(planned0[i2].touches_ref(nm));
                            lemma_segment_grow(old_log, m as int, k as int, nm);
                        } else {
                            assert(planned@[i2] == ev);
                            assert(old_log[k as int].touches_ref(nm));
                        }
                    }
                }
            },
            Event::CommitEvent { commit_oid, .. } => {
                let ghost planned0 = planned@;
                let ev = inverse_visibility_event(&event_replayer, event_cursor, now, tx, *commit_oid);
                planned.push(ev);
                proof {
                    lemma_planned_push(old_log, m as int, k as int, planned0, planned@, ev);
                    assert(forall|nm: Seq<char>| !(#[trigger] old_log[k as int].touches_ref(nm)));
                    assert forall|o2: u64|
                        (#[trigger] old_log[k as int].touches_commit(o2)) implies
                        planned_covers_commit(planned@, o2) by {
                        assert(ev.touches_commit(o2));
                    }
                    assert forall|i2: int, nm: Seq<char>|
                        0 <= i2 < planned@.len() && #[trigger] planned@[i2].touches_ref(
                            nm,
                        ) implies segment_touches_ref(old_log, m as int, k as int + 1, nm) by {
                        if i2 < planned0.len() {
                            assert(planned0[i2].touches_ref(nm));
                            lemma_segment_grow(old_log, m as int, k as int, nm);
                        } else {
                            assert(planned@[i2] == ev);
                            assert(!ev.touches_ref(nm));
                        }
                    }
                }
            },
            Event::HideEvent { commit_oid, .. } => {
                let ghost planned0 = planned@;
                let ev = inverse_visibility_event(&event_replayer, event_cursor, now, tx, *commit_oid);
                planned.push(ev);
                proof {
                    lemma_planned_push(old_log, m as int, k as int, planned0, planned@, ev);
                    assert(forall|nm: Seq<char>| !(#[trigger] old_log[k as int].touches_ref(nm)));
                    assert forall|o2: u64|
                        (#[trigger] old_log[k as int].touches_commit(o2)) implies
                        planned_covers_commit(planned@, o2) by {
                        assert(ev.touches_commit(o2));
                    }
                    assert forall|i2: int, nm: Seq<char>|
                        0 <= i2 < planned@.len() && #[trigger] planned@[i2].touches_ref(
                            nm,
                        ) implies segment_touches_ref(old_log, m as int, k as int + 1, nm) by {
                        if i2 < planned0.len() {
                            assert(planned0[i2].touches_ref(nm));
                            lemma_segment_grow(old_log, m as int, k as int, nm);
                        } else {
                            assert(planned@[i2] == ev);
                            assert(!ev.touches_ref(nm));
                        }
                    }
                }
            },
            Event::UnhideEvent { commit_oid, .. } => {
                let ghost planned0 = planned@;
                let ev = inverse_visibility_event(&event_replayer, event_cursor, now, tx, *commit_oid);
                planned.push(ev);
                proof {
                    lemma_planned_push(old_log, m as int, k as int, planned0, planned@, ev);
                    assert(forall|nm: Seq<char>| !(#[trigger] old_log[k as int].touches_ref(nm)));
                    assert forall|o2: u64|
                        (#[trigger] old_log[k as int].touches_commit(o2)) implies
                        planned_covers_commit(planned@, o2) by {
                        assert(ev.touches_commit(o2));
                    }
                    assert forall|i2: int, nm: Seq<char>|
                        0 <= i2 < planned@.len() && #[trigger] planned@[i2].touches_ref(
                            nm,
                        ) implies segment_touches_ref(old_log, m as int, k as int + 1, nm) by {
                        if i2 < planned0.len() {
                            assert(planned0[i2].touches_ref(nm));
                            lemma_segment_grow(old_log, m as int, k as int, nm);
                        } else {
                            assert(planned@[i2] == ev);
                            assert(!ev.touches_ref(nm));
                        }
                    }
                }
            },
            Event::RewriteEvent { old_commit_oid, new_commit_oid, .. } => {
                let ghost planned0 = planned@;
                let ev1 = inverse_visibility_event(
                    &event_replayer,
                    event_cursor,
                    now,
                    tx,
                    *old_commit_oid,
                );
                planned.push(ev1);
                proof {
                    lemma_planned_push(old_log, m as int, k as int, planned0, planned@, ev1);
                }
                let ghost planned1 = planned@;
                let ev2 = inverse_visibility_event(
                    &event_replayer,
                    event_cursor,
                    now,
                    tx,
                    *new_commit_oid,
                );
                planned.push(ev2);
                proof {
                    lemma_planned_push(old_log, m as int, k as int, planned1, planned@, ev2);
                    assert(forall|nm: Seq<char>| !(#[trigger] old_log[k as int].touches_ref(nm)));
                    assert forall|o2: u64|
                        (#[trigger] old_log[k as int].touches_commit(o2)) implies
                        planned_covers_commit(planned@, o2) by {
                        if o2 == new_commit_oid.num {
                            assert(ev2.touches_commit(o2));
                        } else {
                            assert(o2 == old_commit_oid.num);
                            assert(ev1.touches_commit(o2));
                            assert(planned_covers_commit(planned1, o2));
                        }
                    }
                    assert forall|i2: int, nm: Seq<char>|
                        0 <= i2 < planned@.len() && #[trigger] planned@[i2].touches_ref(
                            nm,
                        ) implies segment_touches_ref(old_log, m as int, k as int + 1, nm) by {
                        if i2 < planned0.len() {
                            assert(planned0[i2].touches_ref(nm));
                            lemma_segment_grow(old_log, m as int, k as int, nm);
                        } else if i2 == planned0.len() {
                            assert(planned@[i2] == ev1);
                            assert(!ev1.touches_ref(nm));
                        } else {
                            assert(planned@[i2] == ev2);
                            assert(!ev2.touches_ref(nm));
                        }
                    }
                }
            },
        }
        proof {
            assert forall|nm: Seq<char>| #[trigger] segment_touches_ref(
                old_log,
                m as int,
                k + 1,
                nm,
            ) implies planned_covers_ref(planned@, nm) by {
                let k2 = choose|k2: int| m <= k2 < k + 1 && (#[trigger] old_log[k2]).touches_ref(nm);
                if k2 < k {
                    assert(segment_touches_ref(old_log, m as int, k as int, nm));
                }
            }
            assert forall|o2: u64| #[trigger] segment_touches_commit(
                old_log,
                m as int,
                k + 1,
                o2,
            ) implies planned_covers_commit(planned@, o2) by {
                let k2 = choose|k2: int|
                    m <= k2 < k + 1 && (#[trigger] old_log[k2]).touches_commit(o2);
                if k2 < k {
                    assert(segment_touches_commit(old_log, m as int, k as int, o2));
                }
            }
        }
        k += 1;
    }
    // validate the reference moves against the repository
    let np = planned.len();
    let mut i: usize = 0;
    let head_name = String::from_str("HEAD");
    while i < np
        invariant
            i <= np,
            np == planned@.len(),
            repo == old(repo),
            forall|i2: int|
                0 <= i2 < i ==> ref_move_valid(*old(repo), #[trigger] planned@[i2]),
        decreases np - i,
    {
        let e = &planned[i];
        match e {
            Event::RefUpdateEvent { ref_name, new_oid, .. } => {
                proof {
                    assert(inverse_ok(old_log, m as int, tx, planned@[i as int]));
                }
                if *ref_name == head_name {
                    if *new_oid != 0 {
                        match repo.find_commit_index(*new_oid) {
                            Some(_) => {},
                            None => {
                                proof {
                                    assert(planned@[i as int].touches_ref("HEAD"@));
                                    assert(segment_touches_ref(
                                        old_log,
                                        m as int,
                                        len as int,
                                        "HEAD"@,
                                    ));
                                    assert(ref_prefix(old_log, m as int, "HEAD"@) == Some(
                                        *new_oid,
                                    ));
                                    assert(undo_move_blocked(*old(repo), old_log, m as int, "HEAD"@));
                                    assert(undo_blocked(*old(repo), old_log, m as int));
                                }
                                output.push(
                                    String::from_str(
                                        "Cannot undo: an event refers to a commit the repository no longer holds.",
                                    ),
                                );
                                return 1;
                            },
                        }
                    }
                } else {
                    if *new_oid == 0 {
                        if *ref_name == repo.main_branch_name {
                            proof {
                                assert(planned@[i as int].touches_ref(ref_name@));
                                assert(segment_touches_ref(old_log, m as int, len as int, ref_name@));
                                assert(ref_prefix(old_log, m as int, ref_name@) is None);
                                assert(undo_move_blocked(*old(repo), old_log, m as int, ref_name@));
                                assert(undo_blocked(*old(repo), old_log, m as int));
                            }
                            output.push(
                                String::from_str("Cannot undo: the main branch would be deleted."),
                            );
                            return 1;
                        }
                    } else {
                        match repo.find_commit_index(*new_oid) {
                            Some(_) => {},
                            None => {
                                proof {
                                    assert(planned@[i as int].touches_ref(ref_name@));
                                    assert(segment_touches_ref(
                                        old_log,
                                        m as int,
                                        len as int,
                                        ref_name@,
                                    ));
                                    assert(ref_prefix(old_log, m as int, ref_name@) == Some(
                                        *new_oid,
                                    ));
                                    assert(undo_move_blocked(
                                        *old(repo),
                                        old_log,
                                        m as int,
                                        ref_name@,
                                    ));
                                    assert(undo_blocked(*old(repo), old_log, m as int));
                                }
                                output.push(
                                    String::from_str(
                                        "Cannot undo: an event refers to a commit the repository no longer holds.",
                                    ),
                                );
                                return 1;
                            },
                        }
                    }
                }
            },
            _ => {},
        }
        i += 1;
    }
    proof {
        assert forall|nm: Seq<char>| #[trigger] segment_touches_ref(
            old_log,
            m as int,
            len as int,
            nm,
        ) implies !undo_move_blocked(*old(repo), old_log, m as int, nm) by {
            assert(planned_covers_ref(planned@, nm));
            let i2 = choose|i2: int|
                0 <= i2 < planned@.len() && (#[trigger] planned@[i2]).touches_ref(nm);
            assert(inverse_ok(old_log, m as int, tx, planned@[i2]));
            assert(ref_move_valid(*old(repo), planned@[i2]));
            match planned@[i2] {
                Event::RefUpdateEvent { ref_name, new_oid, .. } => {
                    assert(ref_name@ == nm);
                    if new_oid == 0 {
                        assert(ref_prefix(old_log, m as int, nm) is None);
                    } else {
                        assert(ref_prefix(old_log, m as int, nm) == Some(new_oid));
                    }
                },
                _ => {
                    assert(false);
                },
            }
        }
        assert(!undo_blocked(*old(repo), old_log, m as int)) by {
            if undo_blocked(*old(repo), old_log, m as int) {
                let nm = choose|nm: Seq<char>|
                    #[trigger] segment_touches_ref(old_log, m as int, old_log.len() as int, nm)
                        && undo_move_blocked(*old(repo), old_log, m as int, nm);
            }
        }
    }
    // apply the reference moves to the repository
    let mut i: usize = 0;
    while i < np
        invariant
            i <= np,
            np == planned@.len(),
            repo.wf(),
            repo.commits@ == old(repo).commits@,
            repo.main_branch_name@ == old(repo).main_branch_name@,
            forall|i2: int|
                0 <= i2 < np ==> ref_move_valid(*old(repo), #[trigger] planned@[i2]),
            (if covers_ref_upto(planned@, i as int, "HEAD"@) {
                repo.head_oid == undo_ref_target(old_log, m as int, "HEAD"@)
            } else {
                repo.head_oid == old(repo).head_oid
            }),
            forall|nm: Seq<char>|
                nm != "HEAD"@ ==> (if #[trigger] covers_ref_upto(planned@, i as int, nm) {
                    branch_lookup(repo.branches@, nm) == ref_prefix(old_log, m as int, nm)
                } else {
                    branch_lookup(repo.branches@, nm) == branch_lookup(old(repo).branches@, nm)
                }),
        decreases np - i,
    {
        let e = &planned[i];
        match e {
            Event::RefUpdateEvent { ref_name, new_oid, .. } => {
                proof {
                    assert(ref_move_valid(*old(repo), planned@[i as int]));
                    assert(inverse_ok(old_log, m as int, tx, planned@[i as int]));
                    assert(planned@[i as int].touches_ref(ref_name@));
                    if *new_oid == 0 {
                        assert(ref_prefix(old_log, m as int, ref_name@) is None);
                    } else {
                        assert(ref_prefix(old_log, m as int, ref_name@) == Some(*new_oid));
                    }
                }
                if *ref_name == head_name {
                    repo.set_head(*new_oid);
                    proof {
                        assert(repo.head_oid == undo_ref_target(old_log, m as int, "HEAD"@));
                        assert(covers_ref_upto(planned@, i + 1, "HEAD"@)) by {
                            assert((#[trigger] planned@[i as int]).touches_ref("HEAD"@) && 0 <= i
                                < i + 1);
                        }
                        assert forall|nm: Seq<char>|
                            nm != "HEAD"@ implies (if #[trigger] covers_ref_upto(
                            planned@,
                            i + 1,
                            nm,
                        ) {
                            branch_lookup(repo.branches@, nm) == ref_prefix(old_log, m as int, nm)
                        } else {
                            branch_lookup(repo.branches@, nm) == branch_lookup(
                                old(repo).branches@,
                                nm,
                            )
                        }) by {
                            lemma_covers_step(planned@, i as int, nm);
                            assert(!planned@[i as int].touches_ref(nm));
                        }
                    }
                } else {
                    if *new_oid == 0 {
                        repo.delete_ref(ref_name);
                    } else {
                        repo.set_ref(ref_name, NonZeroOid { num: *new_oid });
                    }
                    proof {
                        assert(branch_lookup(repo.branches@, ref_name@) == ref_prefix(
                            old_log,
                            m as int,
                            ref_name@,
                        ));
                        assert forall|nm: Seq<char>|
                            nm != "HEAD"@ implies (if #[trigger] covers_ref_upto(
                            planned@,
                            i + 1,
                            nm,
                        ) {
                            branch_lookup(repo.branches@, nm) == ref_prefix(old_log, m as int, nm)
                        } else {
                            branch_lookup(repo.branches@, nm) == branch_lookup(
                                old(repo).branches@,
                                nm,
                            )
                        }) by {
                            lemma_covers_step(planned@, i as int, nm);
                            if nm != ref_name@ {
                                assert(!planned@[i as int].touches_ref(nm));
                            }
                        }
                        assert(covers_ref_upto(planned@, i + 1, "HEAD"@) == covers_ref_upto(
                            planned@,
                            i as int,
                            "HEAD"@,
                        )) by {
                            lemma_covers_step(planned@, i as int, "HEAD"@);
                            assert(!planned@[i as int].touches_ref("HEAD"@));
                        }
                    }
                }
            },
            _ => {
                proof {
                    assert forall|nm: Seq<char>|
                        nm != "HEAD"@ implies (if #[trigger] covers_ref_upto(
                        planned@,
                        i + 1,
                        nm,
                    ) {
                        branch_lookup(repo.branches@, nm) == ref_prefix(old_log, m as int, nm)
                    } else {
                        branch_lookup(repo.branches@, nm) == branch_lookup(
                            old(repo).branches@,
                            nm,
                        )
                    }) by {
                        lemma_covers_step(planned@, i as int, nm);
                        assert(!planned@[i as int].touches_ref(nm));
                    }
                    assert(covers_ref_upto(planned@, i + 1, "HEAD"@) == covers_ref_upto(
                        planned@,
                        i as int,
                        "HEAD"@,
                    )) by {
                        lemma_covers_step(planned@, i as int, "HEAD"@);
                        assert(!planned@[i as int].touches_ref("HEAD"@));
                    }
                }
            },
        }
        i += 1;
    }
    proof {
        assert forall|nm: Seq<char>|
            nm != "HEAD"@ && #[trigger] segment_touches_ref(
                old_log,
                m as int,
                len as int,
                nm,
            ) implies branch_lookup(repo.branches@, nm) == ref_prefix(old_log, m as int, nm) by {
            assert(planned_covers_ref(planned@, nm));
            let w = choose|w: int|
                0 <= w < planned@.len() && (#[trigger] planned@[w]).touches_ref(nm);
            assert(covers_ref_upto(planned@, np as int, nm)) by {
                assert((#[trigger] planned@[w]).touches_ref(nm) && 0 <= w < np);
            }
        }
        assert forall|nm: Seq<char>|
            nm != "HEAD"@ && !(#[trigger] segment_touches_ref(
                old_log,
                m as int,
                len as int,
                nm,
            )) implies branch_lookup(repo.branches@, nm) == branch_lookup(
            old(repo).branches@,
            nm,
        ) by {
            if covers_ref_upto(planned@, np as int, nm) {
                let w = choose|w: int|
                    0 <= w < np && (#[trigger] planned@[w]).touches_ref(nm);
                assert(segment_touches_ref(old_log, m as int, len as int, nm));
                assert(false);
            }
        }
        if segment_touches_ref(old_log, m as int, len as int, "HEAD"@) {
            assert(planned_covers_ref(planned@, "HEAD"@));
            let w = choose|w: int|
                0 <= w < planned@.len() && (#[trigger] planned@[w]).touches_ref("HEAD"@);
            assert(covers_ref_upto(planned@, np as int, "HEAD"@)) by {
                assert((#[trigger] planned@[w]).touches_ref("HEAD"@) && 0 <= w < np);
            }
            assert(repo.head_oid == undo_ref_target(old_log, m as int, "HEAD"@));
        } else {
            if covers_ref_upto(planned@, np as int, "HEAD"@) {
                let w = choose|w: int|
                    0 <= w < np && (#[trigger] planned@[w]).touches_ref("HEAD"@);
                assert(segment_touches_ref(old_log, m as int, len as int, "HEAD"@));
                assert(false);
            }
            assert(repo.head_oid == old(repo).head_oid);
        }
    }
    // one transaction of inverse events
    let napplied = planned.len();
    let ghost planned_seq = planned@;
    event_log_db.add_events(planned);
    let ghost new_log = event_log_db@;
    proof {
        assert(new_log.len() == old_log.len() + napplied);
        assert forall|name: Seq<char>| #[trigger] ref_prefix(new_log, new_log.len() as int, name)
            == ref_prefix(old_log, m as int, name) by {
            if planned_covers_ref(planned_seq, name) {
                let i2 = choose|i2: int|
                    0 <= i2 < planned_seq.len() && (#[trigger] planned_seq[i2]).touches_ref(name);
                assert(new_log[old_log.len() + i2] == planned_seq[i2]);
                assert(new_log[old_log.len() + i2].touches_ref(name));
                assert(inverse_ok(old_log, m as int, tx, new_log[old_log.len() + i2]));
                assert forall|k2: int|
                    old_log.len() <= k2 < new_log.len() && (#[trigger] new_log[k2]).touches_ref(
                        name,
                    ) implies new_log[k2].ref_value_after() == ref_prefix(
                    old_log,
                    m as int,
                    name,
                ) by {
                    assert(inverse_ok(old_log, m as int, tx, new_log[k2]));
                }
                lemma_ref_prefix_set_suffix(
                    new_log,
                    old_log.len() as int,
                    new_log.len() as int,
                    name,
                    ref_prefix(old_log, m as int, name),
                );
            } else {
                assert forall|k2: int|
                    old_log.len() <= k2 < new_log.len() implies !(
                    #[trigger] new_log[k2]).touches_ref(name) by {
                    assert(new_log[k2] == planned_seq[k2 - old_log.len()]);
                    if new_log[k2].touches_ref(name) {
                        assert((#[trigger] planned_seq[k2 - old_log.len()]).touches_ref(name));
                        assert(planned_covers_ref(planned_seq, name));
                    }
                }
                lemma_ref_prefix_untouched(
                    new_log,
                    old_log.len() as int,
                    new_log.len() as int,
                    name,
                );
                lemma_ref_prefix_agree(new_log, old_log, old_log.len() as int, name);
                // the segment did not touch the name either
                assert forall|k2: int|
                    m <= k2 < old_log.len() implies !(#[trigger] old_log[k2]).touches_ref(
                    name,
                ) by {
                    if old_log[k2].touches_ref(name) {
                        assert(segment_touches_ref(old_log, m as int, len as int, name));
                        assert(planned_covers_ref(planned_seq, name));
                        assert(false);
                    }
                }
                lemma_ref_prefix_untouched(old_log, m as int, old_log.len() as int, name);
            }
        }
        assert forall|o: u64|
            (#[trigger] vis_prefix(new_log, new_log.len() as int, o) == Some(
                CommitVisibility::Visible,
            )) <==> vis_prefix(old_log, m as int, o) == Some(CommitVisibility::Visible) by {
            if planned_covers_commit(planned_seq, o) {
                let i2 = choose|i2: int|
                    0 <= i2 < planned_seq.len() && (#[trigger] planned_seq[i2]).touches_commit(o);
                assert(new_log[old_log.len() + i2] == planned_seq[i2]);
                assert(new_log[old_log.len() + i2].touches_commit(o));
                assert(inverse_ok(old_log, m as int, tx, new_log[old_log.len() + i2]));
                if vis_prefix(old_log, m as int, o) == Some(CommitVisibility::Visible) {
                    assert forall|k2: int|
                        old_log.len() <= k2 < new_log.len() && (
                        #[trigger] new_log[k2]).touches_commit(o) implies new_log[
                        k2
                    ].makes_visible(o) by {
                        assert(inverse_ok(old_log, m as int, tx, new_log[k2]));
                    }
                    lemma_vis_prefix_visible_suffix(
                        new_log,
                        old_log.len() as int,
                        new_log.len() as int,
                        o,
                    );
                } else {
                    assert forall|k2: int|
                        old_log.len() <= k2 < new_log.len() && (
                        #[trigger] new_log[k2]).touches_commit(o) implies !new_log[
                        k2
                    ].makes_visible(o) by {
                        assert(inverse_ok(old_log, m as int, tx, new_log[k2]));
                    }
                    lemma_vis_prefix_hidden_suffix(
                        new_log,
                        old_log.len() as int,
                        new_log.len() as int,
                        o,
                    );
                }
            } else {
                assert forall|k2: int|
                    old_log.len() <= k2 < new_log.len() implies !(
                    #[trigger] new_log[k2]).touches_commit(o) by {
                    assert(new_log[k2] == planned_seq[k2 - old_log.len()]);
                    if new_log[k2].touches_commit(o) {
                        assert((#[trigger] planned_seq[k2 - old_log.len()]).touches_commit(o));
                        assert(planned_covers_commit(planned_seq, o));
                    }
                }
                lemma_vis_prefix_untouched(new_log, old_log.len() as int, new_log.len() as int, o);
                lemma_vis_prefix_agree(new_log, old_log, old_log.len() as int, o);
                assert forall|k2: int|
                    m <= k2 < old_log.len() implies !(#[trigger] old_log[k2]).touches_commit(
                    o,
                ) by {
                    if old_log[k2].touches_commit(o) {
                        assert(segment_touches_commit(old_log, m as int, len as int, o));
                        assert(planned_covers_commit(planned_seq, o));
                        assert(false);
                    }
                }
                lemma_vis_prefix_untouched(old_log, m as int, old_log.len() as int, o);
            }
        }
    }
    output.push(String::from_str("Applied inverse events back to the selected state."));
    0
}

/// Whether a planned reference move can be applied to the repository: HEAD
/// moves to zero or an existing commit; a branch moves to an existing
/// commit or is deleted, and the main branch is never deleted.
pub open spec fn ref_move_valid(repo: Repo, e: Event) -> bool {
    match e {
        Event::RefUpdateEvent { ref_name, new_oid, .. } => {
            if ref_name@ == "HEAD"@ {
                new_oid == 0 || has_commit(repo.commits@, new_oid)
            } else if new_oid == 0 {
                ref_name@ != repo.main_branch_name@
            } else {
                has_commit(repo.commits@, new_oid)
            }
        },
        _ => true,
    }
}

/// The folded inverse for one commit's visibility: unhide it when it was
/// visible at the cursor, hide it otherwise.
fn inverse_visibility_event(
    event_replayer: &EventReplayer,
    event_cursor: EventCursor,
    now: u64,
    tx: u64,
    commit_oid: NonZeroOid,
) -> (ev: Event)
    ensures
        ev.tx_id() == tx,
        forall|nm: Seq<char>| !(#[trigger] ev.touches_ref(nm)),
        forall|o: u64| #[trigger] ev.touches_commit(o) ==> o == commit_oid.num,
        ev.touches_commit(commit_oid.num),
        forall|o: u64|
            #[trigger] ev.touches_commit(o) ==> ev.makes_visible(o) == (vis_prefix(
                event_replayer.events(),
                event_cursor.event_id - 1,
                o,
            ) == Some(CommitVisibility::Visible)),
{
    let past = event_replayer.get_cursor_commit_visibility(event_cursor, commit_oid);
    match past {
        Some(CommitVisibility::Visible) => Event::UnhideEvent {
            timestamp: now,
            event_tx_id: tx,
            commit_oid,
        },
        _ => Event::HideEvent { timestamp: now, event_tx_id: tx, commit_oid },
    }
}

/// Pushing a planned inverse keeps every fact the fold maintains.
proof fn lemma_planned_push(
    old_log: Seq<Event>,
    m: int,
    k: int,
    planned0: Seq<Event>,
    planned1: Seq<Event>,
    ev: Event,
)
    requires
        planned1 == planned0.push(ev),
    ensures
        forall|name: Seq<char>|
            #[trigger] planned_covers_ref(planned0, name) ==> planned_covers_ref(planned1, name),
        forall|o: u64|
            #[trigger] planned_covers_commit(planned0, o) ==> planned_covers_commit(planned1, o),
        forall|name: Seq<char>|
            #[trigger] ev.touches_ref(name) ==> planned_covers_ref(planned1, name),
        forall|o: u64| #[trigger] ev.touches_commit(o) ==> planned_covers_commit(planned1, o),
{
    assert forall|name: Seq<char>| #[trigger] planned_covers_ref(
        planned0,
        name,
    ) implies planned_covers_ref(planned1, name) by {
        let w = choose|w: int| 0 <= w < planned0.len() && (#[trigger] planned0[w]).touches_ref(name);
        assert((#[trigger] planned1[w]).touches_ref(name));
    }
    assert forall|o: u64| #[trigger] planned_covers_commit(
        planned0,
        o,
    ) implies planned_covers_commit(planned1, o) by {
        let w = choose|w: int|
            0 <= w < planned0.len() && (#[trigger] planned0[w]).touches_commit(o);
        assert((#[trigger] planned1[w]).touches_commit(o));
    }
    assert forall|name: Seq<char>| #[trigger] ev.touches_ref(name) implies planned_covers_ref(
        planned1,
        name,
    ) by {
        assert((#[trigger] planned1[planned0.len() as int]).touches_ref(name));
    }
    assert forall|o: u64| #[trigger] ev.touches_commit(o) implies planned_covers_commit(
        planned1,
        o,
    ) by {
        assert((#[trigger] planned1[planned0.len() as int]).touches_commit(o));
    }
}

} // verus!
