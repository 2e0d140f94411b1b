use pgcache_writer::cache::CachePolicy;
use pgcache_writer::cache::CachedQuery;
use pgcache_writer::cache::CachedQueryState;
use pgcache_writer::cache::Effect;
use pgcache_writer::cache::QueryEntry;
use pgcache_writer::catalog::ColumnMetadata;
use pgcache_writer::catalog::Row;
use pgcache_writer::catalog::TableMetadata;
use pgcache_writer::cdc::CdcTask;
use pgcache_writer::command::CdcCommand;
use pgcache_writer::command::CdcValue;
use pgcache_writer::error::CacheError;
use pgcache_writer::fault::Faults;
use pgcache_writer::flush::FlushAsk;
use pgcache_writer::frame::FrameState;
use pgcache_writer::invalidation::ColumnChange;
use pgcache_writer::invalidation::RowChanges;
use pgcache_writer::mv::MvState;
use pgcache_writer::mv::ShapeGate;
use pgcache_writer::query::QueryConstraints;
use pgcache_writer::query::RowPredicate;
use pgcache_writer::query::SubqueryKind;
use pgcache_writer::query::TemplatePiece;
use pgcache_writer::query::UpdateEvalStrategy;
use pgcache_writer::query::UpdateQueries;
use pgcache_writer::query::UpdateQuery;
use pgcache_writer::query::UpdateQuerySource;
use pgcache_writer::replay::ReplayAsk;
use pgcache_writer::replay::ReplayReply;
use pgcache_writer::segment_eval::SegmentAsk;
use pgcache_writer::segment_eval::SegmentReply;
use pgcache_writer::task::CdcAsk;
use pgcache_writer::values::BinaryOp;
use pgcache_writer::values::LiteralValue;
use pgcache_writer::writer::LoopEvent;
use pgcache_writer::writer::LoopVerdict;
use pgcache_writer::writer::Writer;

const USERS: u32 = 1001;

fn column(name: &str, position: u16, is_primary_key: bool, toastable: bool) -> ColumnMetadata {
    ColumnMetadata {
        name: name.to_owned(),
        position,
        type_oid: 25,
        source_type_name: "text".to_owned(),
        cache_type_name: "text".to_owned(),
        is_primary_key,
        toastable,
    }
}

fn users() -> TableMetadata {
    TableMetadata {
        relation_oid: USERS,
        name: "users".to_owned(),
        schema: "public".to_owned(),
        primary_key_columns: vec!["id".to_owned()],
        columns: vec![
            column("id", 1, true, false),
            column("name", 2, false, false),
            column("bio", 3, false, true),
        ],
    }
}

fn query(fingerprint: u64) -> UpdateQuery {
    UpdateQuery {
        fingerprint,
        source: UpdateQuerySource::FromClause,
        has_limit: false,
        is_single_table: true,
        predicate_columns: vec!["name".to_owned()],
        limit_window_columns: Vec::new(),
        constraints: QueryConstraints::unconstrained(),
        eval_strategy: UpdateEvalStrategy::LocalEval,
        pg_batchable: false,
        change_dependent: false,
        compiled_where: Some(RowPredicate::Comparison(
            1,
            BinaryOp::Equal,
            LiteralValue::String("alice".to_owned()),
        )),
        occurrences: vec![vec![
            TemplatePiece::Text("SELECT 1 WHERE ".to_owned()),
            TemplatePiece::Cell(1),
            TemplatePiece::Text(" = 'alice'".to_owned()),
        ]],
        unnest_sql: "SELECT 1".to_owned(),
        batch_head: "SELECT ".to_owned(),
        batch_middle: ", x FROM (VALUES ".to_owned(),
        batch_tail: ") v".to_owned(),
    }
}

fn writer_with(queries: Vec<UpdateQuery>) -> Writer {
    let mut w = Writer::new("pgcache_pub".to_owned(), CachePolicy::Clock, Faults::none());
    w.core.cache.tables.insert(USERS, users());
    for q in &queries {
        w.core.cache.cached.push(CachedQuery {
            fingerprint: q.fingerprint,
            generation: q.fingerprint,
            relation_oids: vec![USERS],
            pinned: false,
            invalidated: false,
            sql: "SELECT * FROM users".to_owned(),
        });
        w.core.cache.generations.push(q.fingerprint);
        w.core.cache.generation_counter = q.fingerprint;
        w.core.cache.entries.insert(
            q.fingerprint,
            QueryEntry {
                state: CachedQueryState::Ready,
                generation: q.fingerprint,
                max_limit: None,
                referenced: false,
                mv_state: MvState::Fresh,
                shape_gate: ShapeGate::Materialize,
                mv_limit: None,
                output_columns: None,
                sql: Some("SELECT * FROM users".to_owned()),
            },
        );
    }
    w.core.cache.active.active_relations_acquire(&vec![USERS]);
    w.core.cache.active.publication_updated();
    if !queries.is_empty() {
        w.core.cache.update_queries.insert(USERS, UpdateQueries { queries });
    }
    w
}

/// A cache database that records what it is sent and answers by a script.
struct Fake {
    sent: Vec<String>,
    asked: Vec<String>,
    /// The next statement that is sent fails with this.
    fail: Option<CacheError>,
    /// Whether asked queries hold the row.
    holds: bool,
    changes: Option<RowChanges>,
    lookup: Option<Vec<Row>>,
    prepared_fails: bool,
}

impl Fake {
    fn new() -> Fake {
        Fake {
            sent: Vec::new(),
            asked: Vec::new(),
            fail: None,
            holds: false,
            changes: None,
            lookup: None,
            prepared_fails: false,
        }
    }

    fn send(&mut self, sql: &str) -> ReplayReply {
        self.sent.push(sql.to_owned());
        match self.fail.take() {
            Some(e) => ReplayReply::Failed(e),
            None => ReplayReply::Sent,
        }
    }

    fn replay(&mut self, ask: ReplayAsk, w: &Writer, task: &CdcTask) -> ReplayReply {
        let replay = match task {
            CdcTask::Replay(r) => r,
            CdcTask::Flush { flush, .. } => &flush.replay,
            _ => panic!("no replay"),
        };
        match ask {
            ReplayAsk::Lookup => {
                let sql = replay.lookup(&w.core).expect("a lookup");
                self.asked.push(sql);
                ReplayReply::Lookup(self.lookup.take())
            }
            ReplayAsk::Segment { ask } => {
                let rows = replay.eval.asked_rows();
                let queries = replay.eval.asked_queries();
                match ask {
                    SegmentAsk::Prepared => {
                        self.asked.push(format!("prepared {} x {}", queries.len(), rows.len()));
                        let ordinals: Vec<i32> = if self.holds {
                            (0..rows.len() as i32).collect()
                        } else {
                            Vec::new()
                        };
                        let matches = if self.prepared_fails {
                            Vec::new()
                        } else {
                            queries.iter().map(|q| (*q, ordinals.clone())).collect()
                        };
                        ReplayReply::Segment(SegmentReply::Ordinals {
                            matches,
                            complete: !self.prepared_fails,
                        })
                    }
                    SegmentAsk::Inline => {
                        self.asked.push(format!("inline {} x {}", queries.len(), rows.len()));
                        let mut matches = Vec::new();
                        if self.holds {
                            for q in 0..queries.len() {
                                for r in 0..rows.len() {
                                    matches.push((q, r));
                                }
                            }
                        }
                        ReplayReply::Segment(SegmentReply::Pairs { matches })
                    }
                    SegmentAsk::PreparedChanges | SegmentAsk::InlineChanges => {
                        self.asked.push(format!("changes {}", rows.len()));
                        let changes = match self.changes.take() {
                            Some(c) => vec![(0, c)],
                            None => Vec::new(),
                        };
                        ReplayReply::Segment(SegmentReply::Changes { changes })
                    }
                    _ => panic!("not asked"),
                }
            }
            ReplayAsk::RowChanges => {
                self.asked.push("row changes".to_owned());
                ReplayReply::Changes(self.changes.take())
            }
            ReplayAsk::Membership { any } => {
                let queries = replay.asked_queries();
                self.asked.push(format!("membership any={any} of {}", queries.len()));
                let n = if any { 1 } else { queries.len() };
                ReplayReply::Matches(vec![self.holds; n])
            }
            ReplayAsk::Send => self.send(w.core.frame.buf.as_str()),
            ReplayAsk::Rollback => {
                self.sent.push("ROLLBACK".to_owned());
                ReplayReply::RolledBack
            }
            _ => panic!("not asked"),
        }
    }

    fn perform(&mut self, ask: CdcAsk, w: &Writer, task: &CdcTask) -> ReplayReply {
        match ask {
            CdcAsk::Replay { ask } => self.replay(ask, w, task),
            CdcAsk::Flush { ask } => match ask {
                FlushAsk::Replay { ask } => self.replay(ask, w, task),
                FlushAsk::Commit => self.send(w.core.frame.buf.as_str()),
                FlushAsk::Rollback => {
                    self.sent.push("ROLLBACK".to_owned());
                    ReplayReply::RolledBack
                }
                FlushAsk::Truncate => match task {
                    CdcTask::Flush { flush, .. } => self.send(flush.truncate.as_str()),
                    _ => panic!("no flush"),
                },
                _ => panic!("not asked"),
            },
            CdcAsk::Rollback => {
                self.sent.push("ROLLBACK".to_owned());
                ReplayReply::RolledBack
            }
            CdcAsk::Register => match task {
                CdcTask::Registering { table, changed, .. } => {
                    self.sent.push(format!("register {} {changed}", table.name));
                    ReplayReply::Sent
                }
                _ => panic!("no registration"),
            },
            CdcAsk::Alter => match task {
                CdcTask::Altering { sql, .. } => self.send(sql.as_str()),
                _ => panic!("no alteration"),
            },
            _ => panic!("not asked"),
        }
    }
}

fn run(w: &mut Writer, db: &mut Fake, cmd: CdcCommand, queued: usize) -> Result<(), CacheError> {
    let mut task = w.command_begin(cmd, queued)?;
    loop {
        let ask = w.cdc.task_ask(&w.core, &task);
        match ask {
            CdcAsk::Done => return Ok(()),
            CdcAsk::Continue => task = w.command_step(task)?,
            _ => {
                let reply = db.perform(ask, w, &task);
                task = w.command_answer(task, reply)?;
            }
        }
    }
}

fn text(value: &str) -> CdcValue {
    CdcValue::Text(value.to_owned())
}

fn values(cells: &[&str]) -> Vec<CdcValue> {
    cells.iter().map(|c| text(c)).collect()
}

fn insert(cells: &[&str]) -> CdcCommand {
    CdcCommand::Insert {
        relation_oid: USERS,
        row_data: values(cells),
    }
}

fn update(cells: &[&str]) -> CdcCommand {
    CdcCommand::Update {
        relation_oid: USERS,
        key_data: Vec::new(),
        row_data: values(cells),
    }
}

fn delete(key: &str) -> CdcCommand {
    CdcCommand::Delete {
        relation_oid: USERS,
        row_data: vec![text(key), CdcValue::Null, CdcValue::Null],
    }
}

fn transaction(w: &mut Writer, db: &mut Fake, cmds: Vec<CdcCommand>, lsn: u64, queued: usize) {
    run(w, db, CdcCommand::Begin { xid: 1 }, queued).expect("begin");
    for cmd in cmds {
        run(w, db, cmd, queued).expect("command");
    }
    run(w, db, CdcCommand::CommitMark { lsn }, queued).expect("commit");
}

const UPSERT_ALICE: &str = "INSERT INTO \"public\".\"users\" (\"id\", \"name\", \"bio\") \
     VALUES ('1', 'alice', 'x') ON CONFLICT (\"id\") DO UPDATE SET \"name\" = EXCLUDED.\"name\", \
     \"bio\" = EXCLUDED.\"bio\"";

const DROP_USERS: &str = "ALTER PUBLICATION pgcache_pub DROP TABLE public.users";

#[test]
fn a_matching_insert_is_committed_in_one_statement() {
    let mut w = writer_with(vec![query(1)]);
    let mut db = Fake::new();
    transaction(&mut w, &mut db, vec![insert(&["1", "alice", "x"])], 100, 0);
    assert_eq!(db.sent, vec![format!("BEGIN; {UPSERT_ALICE}; COMMIT")]);
    assert_eq!(w.cdc.last_applied_lsn, 100);
    assert_eq!(w.core.last_applied_lsn, 100);
    assert!(w.core.frame.state == FrameState::Idle);
    assert_eq!(w.merges.batch_flush_seq, 1);
    assert_eq!(
        w.core.cache.entries[&1].mv_state,
        MvState::Pending { has_table: true },
        "the hit dirties the materialized result"
    );
}

#[test]
fn an_insert_that_no_query_holds_is_not_written() {
    let mut w = writer_with(vec![query(1)]);
    let mut db = Fake::new();
    transaction(&mut w, &mut db, vec![insert(&["1", "bob", "x"])], 100, 0);
    assert!(db.sent.is_empty());
    assert_eq!(w.cdc.last_applied_lsn, 100);
    assert_eq!(w.core.cache.entries[&1].mv_state, MvState::Fresh);
}

#[test]
fn an_insert_with_a_tracked_deletion_is_written_anyway() {
    let mut w = writer_with(vec![query(1)]);
    w.core.deleted_keys.activate(9, 9, &vec![USERS]);
    w.core.deleted_keys.record(USERS, "'1'".to_owned(), 10);
    let mut db = Fake::new();
    transaction(&mut w, &mut db, vec![insert(&["1", "bob", "x"])], 100, 0);
    assert_eq!(db.sent.len(), 1);
    assert!(db.sent[0].contains("'bob'"), "{}", db.sent[0]);
    assert!(!w.core.deleted_keys.is_tracked(USERS, &"'1'".to_owned()));
}

#[test]
fn a_row_that_left_every_query_is_removed() {
    let mut w = writer_with(vec![query(1)]);
    let mut db = Fake::new();
    transaction(&mut w, &mut db, vec![update(&["1", "bob", "x"])], 100, 0);
    assert_eq!(
        db.sent,
        vec!["BEGIN; DELETE FROM \"public\".\"users\" WHERE \"id\" = '1'; COMMIT".to_owned()]
    );
    assert_eq!(
        w.core.cache.entries[&1].mv_state,
        MvState::Pending { has_table: true },
        "the old version may have been in the materialized result"
    );
}

#[test]
fn a_row_that_left_every_query_is_kept_while_populations_run() {
    let mut w = writer_with(vec![query(1)]);
    w.core.deleted_keys.activate(9, 9, &vec![USERS]);
    let mut db = Fake::new();
    transaction(&mut w, &mut db, vec![update(&["1", "bob", "x"])], 100, 0);
    assert!(db.sent[0].contains("INSERT INTO"), "{}", db.sent[0]);
    assert!(!db.sent[0].contains("DELETE"), "{}", db.sent[0]);
}

#[test]
fn a_changed_key_removes_the_old_row_too() {
    let mut w = writer_with(vec![query(1)]);
    let mut db = Fake::new();
    let cmd = CdcCommand::Update {
        relation_oid: USERS,
        key_data: vec![text("7"), CdcValue::Null, CdcValue::Null],
        row_data: values(&["1", "alice", "x"]),
    };
    transaction(&mut w, &mut db, vec![cmd], 100, 0);
    assert_eq!(
        db.sent,
        vec![format!(
            "BEGIN; {UPSERT_ALICE}; DELETE FROM \"public\".\"users\" WHERE \"id\" = '7'; COMMIT"
        )]
    );
}

#[test]
fn a_delete_is_recorded_for_populations_with_its_commit_lsn() {
    let mut w = writer_with(vec![query(1)]);
    w.core.deleted_keys.activate(9, 9, &vec![USERS]);
    let mut db = Fake::new();
    transaction(&mut w, &mut db, vec![delete("5")], 100, 0);
    assert_eq!(
        db.sent,
        vec!["BEGIN; DELETE FROM \"public\".\"users\" WHERE \"id\" = '5'; COMMIT".to_owned()]
    );
    assert!(w.core.deleted_keys.is_tracked(USERS, &"'5'".to_owned()));
}

#[test]
fn a_delete_invalidates_an_exclusion_before_the_commit() {
    let mut q = query(1);
    q.source = UpdateQuerySource::Subquery(SubqueryKind::Exclusion);
    let mut w = writer_with(vec![q]);
    let mut db = Fake::new();
    transaction(&mut w, &mut db, vec![delete("5")], 100, 0);
    assert!(w.core.cache.cached[0].invalidated);
    assert_eq!(w.core.cache.entries[&1].state, CachedQueryState::Invalidated);
}

#[test]
fn frames_accumulate_behind_a_backlog() {
    let mut w = writer_with(vec![query(1)]);
    let mut db = Fake::new();
    transaction(&mut w, &mut db, vec![insert(&["1", "alice", "x"])], 100, 3);
    assert!(db.sent.is_empty());
    assert_eq!(w.cdc.last_applied_lsn, 0);
    transaction(&mut w, &mut db, vec![delete("1")], 200, 0);
    assert_eq!(
        db.sent,
        vec![format!(
            "BEGIN; {UPSERT_ALICE}; DELETE FROM \"public\".\"users\" WHERE \"id\" = '1'; COMMIT"
        )]
    );
    assert_eq!(w.cdc.last_applied_lsn, 200);
}

#[test]
fn a_keepalive_flushes_before_it_moves_the_watermark() {
    let mut w = writer_with(vec![query(1)]);
    let mut db = Fake::new();
    transaction(&mut w, &mut db, vec![insert(&["1", "alice", "x"])], 100, 3);
    run(&mut w, &mut db, CdcCommand::KeepAliveMark { lsn: 150 }, 0).expect("keepalive");
    assert_eq!(db.sent.len(), 1);
    assert_eq!(w.cdc.last_applied_lsn, 150);
    run(&mut w, &mut db, CdcCommand::KeepAliveMark { lsn: 120 }, 0).expect("keepalive");
    assert_eq!(w.cdc.last_applied_lsn, 150, "the watermark never falls");
    run(&mut w, &mut db, CdcCommand::Begin { xid: 2 }, 0).expect("begin");
    run(&mut w, &mut db, CdcCommand::KeepAliveMark { lsn: 999 }, 0).expect("keepalive");
    assert_eq!(w.cdc.last_applied_lsn, 150, "not inside a source transaction");
}

#[test]
fn a_held_batch_waits_for_its_frames() {
    let mut w = writer_with(vec![query(1)]);
    w.faults.hold_flush_frames = Some(2);
    let mut db = Fake::new();
    transaction(&mut w, &mut db, vec![insert(&["1", "alice", "x"])], 100, 0);
    assert!(db.sent.is_empty());
    transaction(&mut w, &mut db, vec![], 200, 0);
    assert_eq!(db.sent.len(), 1);
}

#[test]
fn a_deadlocked_commit_recovers_the_relations() {
    let mut w = writer_with(vec![query(1)]);
    let mut db = Fake::new();
    db.fail = Some(CacheError::PgError {
        code: Some("40P01".to_owned()),
    });
    transaction(&mut w, &mut db, vec![insert(&["1", "alice", "x"])], 100, 0);
    assert_eq!(db.sent.len(), 3);
    assert_eq!(db.sent[1], "BEGIN; TRUNCATE \"public\".\"users\"; COMMIT");
    assert_eq!(db.sent[2], DROP_USERS);
    assert!(w.core.cache.cached.is_empty(), "the queries repopulate");
    assert_eq!(w.cdc.last_applied_lsn, 100);
    assert!(w.core.frame.state == FrameState::Idle);
}

#[test]
fn a_deadlock_after_a_sent_chunk_is_rolled_back_first() {
    let mut w = writer_with(vec![query(1)]);
    let mut db = Fake::new();
    run(&mut w, &mut db, CdcCommand::Begin { xid: 1 }, 0).expect("begin");
    run(&mut w, &mut db, insert(&["1", "alice", "x"]), 0).expect("insert");
    w.core.frame.chunk_flushed = true;
    db.fail = Some(CacheError::PgError {
        code: Some("40P01".to_owned()),
    });
    run(&mut w, &mut db, CdcCommand::CommitMark { lsn: 100 }, 0).expect("commit");
    assert_eq!(db.sent.len(), 4);
    assert_eq!(db.sent[1], "ROLLBACK");
    assert_eq!(db.sent[2], "BEGIN; TRUNCATE \"public\".\"users\"; COMMIT");
    assert_eq!(db.sent[3], DROP_USERS);
}

#[test]
fn any_other_failed_commit_is_fatal() {
    let mut w = writer_with(vec![query(1)]);
    let mut db = Fake::new();
    run(&mut w, &mut db, CdcCommand::Begin { xid: 1 }, 0).expect("begin");
    run(&mut w, &mut db, insert(&["1", "alice", "x"]), 0).expect("insert");
    db.fail = Some(CacheError::PgError {
        code: Some("53100".to_owned()),
    });
    let r = run(&mut w, &mut db, CdcCommand::CommitMark { lsn: 100 }, 0);
    assert!(matches!(r, Err(CacheError::PgError { .. })));
    assert_eq!(w.cdc.last_applied_lsn, 0);
    assert!(w.loop_next(LoopEvent::Cdc { failed: true }) == LoopVerdict::Fail);
}

#[test]
fn an_injected_deadlock_fires_once_and_drops_the_frame() {
    let mut w = writer_with(vec![query(1)]);
    w.faults.cdc_deadlock_once = true;
    let mut db = Fake::new();
    transaction(
        &mut w,
        &mut db,
        vec![insert(&["1", "alice", "x"]), insert(&["2", "alice", "x"])],
        100,
        5,
    );
    assert_eq!(
        db.sent,
        vec![
            "BEGIN; TRUNCATE \"public\".\"users\"; COMMIT".to_owned(),
            DROP_USERS.to_owned(),
        ]
    );
    assert!(!w.faults.cdc_deadlock_once);
}

#[test]
fn a_truncate_empties_the_table_and_evicts_its_queries() {
    let mut w = writer_with(vec![query(1)]);
    w.core.deleted_keys.activate(9, 9, &vec![USERS]);
    let mut db = Fake::new();
    let cmd = CdcCommand::Truncate {
        relation_oids: vec![USERS],
    };
    transaction(&mut w, &mut db, vec![cmd], 100, 0);
    assert_eq!(
        db.sent[0],
        "BEGIN; TRUNCATE \"public\".\"users\"; COMMIT"
    );
    assert!(w.core.cache.cached.is_empty());
    assert!(w.core.cache.effects.contains(&Effect::WaitersFail { fingerprint: 1 }));
    assert!(w.core.deleted_keys.should_abort(USERS, 99), "older snapshots abort");
    assert!(!w.core.deleted_keys.should_abort(USERS, 100));
    assert_eq!(db.sent[1], DROP_USERS, "nothing reads the relation any more");
}

#[test]
fn asked_queries_are_batched_over_the_segment() {
    let mut q = query(1);
    q.eval_strategy = UpdateEvalStrategy::PgEval;
    q.pg_batchable = true;
    let mut w = writer_with(vec![q]);
    let mut db = Fake::new();
    db.holds = true;
    transaction(
        &mut w,
        &mut db,
        vec![insert(&["1", "alice", "x"]), insert(&["2", "carol", "y"])],
        100,
        0,
    );
    assert_eq!(db.asked, vec!["prepared 1 x 2".to_owned()]);
    assert!(db.sent[0].contains("'carol'"), "{}", db.sent[0]);
}

#[test]
fn a_failed_prepared_question_is_asked_again_inline() {
    let mut q = query(1);
    q.eval_strategy = UpdateEvalStrategy::PgEval;
    q.pg_batchable = true;
    let mut w = writer_with(vec![q]);
    let mut db = Fake::new();
    db.holds = true;
    db.prepared_fails = true;
    transaction(&mut w, &mut db, vec![insert(&["2", "carol", "y"])], 100, 0);
    assert_eq!(db.asked, vec!["prepared 1 x 1".to_owned(), "inline 1 x 1".to_owned()]);
    assert_eq!(db.sent.len(), 1);
}

#[test]
fn queries_that_cannot_be_batched_are_asked_row_by_row() {
    let mut q = query(1);
    q.eval_strategy = UpdateEvalStrategy::PgEval;
    let mut r = query(2);
    r.eval_strategy = UpdateEvalStrategy::PgEval;
    let mut w = writer_with(vec![q, r]);
    w.core.cache.entries.get_mut(&2).expect("entry").mv_state = MvState::Skipped;
    let mut db = Fake::new();
    transaction(&mut w, &mut db, vec![insert(&["2", "carol", "y"])], 100, 0);
    assert_eq!(
        db.asked,
        vec!["membership any=false of 1".to_owned(), "membership any=true of 1".to_owned()]
    );
    assert!(db.sent.is_empty());
    db.asked.clear();
    db.holds = true;
    transaction(&mut w, &mut db, vec![insert(&["3", "dave", "y"])], 200, 0);
    assert_eq!(
        db.asked,
        vec!["membership any=false of 1".to_owned()],
        "one match is enough for the row"
    );
    assert_eq!(db.sent.len(), 1);
}

fn changed(column: &str) -> RowChanges {
    vec![
        ColumnChange {
            column: "id".to_owned(),
            changed: false,
            old_less: None,
            old_null: None,
        },
        ColumnChange {
            column: column.to_owned(),
            changed: true,
            old_less: None,
            old_null: None,
        },
    ]
}

#[test]
fn a_window_column_that_changed_invalidates_a_limited_query() {
    let mut q = query(1);
    q.has_limit = true;
    q.change_dependent = true;
    q.limit_window_columns = vec!["name".to_owned()];
    let mut w = writer_with(vec![q]);
    let mut db = Fake::new();
    db.changes = Some(changed("name"));
    transaction(&mut w, &mut db, vec![update(&["1", "alice", "x"])], 100, 0);
    assert_eq!(db.asked, vec!["changes 1".to_owned()]);
    assert!(w.core.cache.cached[0].invalidated);
}

#[test]
fn a_change_outside_the_window_keeps_a_limited_query() {
    let mut q = query(1);
    q.has_limit = true;
    q.change_dependent = true;
    q.limit_window_columns = vec!["name".to_owned()];
    let mut w = writer_with(vec![q]);
    let mut db = Fake::new();
    db.changes = Some(changed("bio"));
    transaction(&mut w, &mut db, vec![update(&["1", "alice", "x"])], 100, 0);
    assert!(!w.core.cache.cached[0].invalidated);
}

fn toasted_update(key: &str, name: &str) -> CdcCommand {
    CdcCommand::Update {
        relation_oid: USERS,
        key_data: Vec::new(),
        row_data: vec![text(key), text(name), CdcValue::Toasted],
    }
}

#[test]
fn a_missing_value_is_repaired_from_the_batch() {
    let mut w = writer_with(vec![query(1)]);
    let mut db = Fake::new();
    transaction(
        &mut w,
        &mut db,
        vec![insert(&["1", "bob", "long"]), toasted_update("1", "alice")],
        100,
        0,
    );
    assert!(db.asked.is_empty());
    assert!(db.sent[0].contains("VALUES ('1', 'alice', 'long')"), "{}", db.sent[0]);
}

#[test]
fn a_missing_value_is_repaired_from_the_cache_table() {
    let mut w = writer_with(vec![query(1)]);
    let mut db = Fake::new();
    db.lookup = Some(vec![vec![Some("1".to_owned()), Some("kept".to_owned())]]);
    transaction(&mut w, &mut db, vec![toasted_update("1", "alice")], 100, 0);
    assert_eq!(db.asked.len(), 1);
    assert!(db.asked[0].starts_with("SELECT "), "{}", db.asked[0]);
    assert!(db.sent[0].contains("VALUES ('1', 'alice', 'kept')"), "{}", db.sent[0]);
}

#[test]
fn an_unrepaired_image_never_reaches_the_table() {
    let mut w = writer_with(vec![query(1)]);
    let mut db = Fake::new();
    transaction(&mut w, &mut db, vec![toasted_update("1", "alice")], 100, 0);
    assert_eq!(
        db.sent,
        vec!["BEGIN; DELETE FROM \"public\".\"users\" WHERE \"id\" = '1'; COMMIT".to_owned()]
    );
    assert!(w.core.cache.cached[0].invalidated, "the query held the row");
}

#[test]
fn an_incomplete_insert_invalidates_its_relation() {
    let mut w = writer_with(vec![query(1)]);
    let mut db = Fake::new();
    let cmd = CdcCommand::Insert {
        relation_oid: USERS,
        row_data: vec![text("1"), text("alice"), CdcValue::Toasted],
    };
    transaction(&mut w, &mut db, vec![cmd], 100, 0);
    assert!(db.sent.is_empty());
    assert!(w.core.cache.cached[0].invalidated);
}

#[test]
fn a_redefined_relation_drops_its_unreplayed_events() {
    let mut w = writer_with(vec![query(1)]);
    let mut db = Fake::new();
    let mut wider = users();
    wider.columns.push(column("age", 4, false, false));
    transaction(
        &mut w,
        &mut db,
        vec![insert(&["1", "alice", "x"]), CdcCommand::TableRegister(wider)],
        100,
        0,
    );
    assert_eq!(db.sent[0], "register users true");
    assert!(db.sent.iter().all(|s| !s.contains("INSERT")), "{:?}", db.sent);
    assert_eq!(db.sent[1], DROP_USERS);
    assert!(w.core.cache.cached.is_empty());
    assert!(!w.core.cache.tables.contains_key(&USERS), "nothing reads it any more");
    assert!(w.core.cache.effects.contains(&Effect::TableDrop {
        sql: "DROP TABLE IF EXISTS \"public\".\"users\"".to_owned()
    }));
}

#[test]
fn a_definition_holds_from_its_registration_on() {
    let mut w = writer_with(vec![query(1)]);
    let mut db = Fake::new();
    let mut other = users();
    other.relation_oid = 77;
    other.name = "orders".to_owned();
    transaction(&mut w, &mut db, vec![CdcCommand::TableRegister(other)], 100, 0);
    assert_eq!(db.sent, vec!["register orders true".to_owned()]);
    assert_eq!(w.core.cache.tables[&77].name, "orders");
    assert!(w.core.cache.tables.contains_key(&USERS));
    assert_eq!(w.core.cache.cached.len(), 1);
}

#[test]
fn a_relation_sent_again_changes_nothing() {
    let mut w = writer_with(vec![query(1)]);
    let mut db = Fake::new();
    transaction(
        &mut w,
        &mut db,
        vec![insert(&["1", "alice", "x"]), CdcCommand::TableRegister(users())],
        100,
        0,
    );
    assert_eq!(db.sent[0], "register users false");
    assert_eq!(db.sent[1], format!("BEGIN; {UPSERT_ALICE}; COMMIT"));
    assert_eq!(w.core.cache.cached.len(), 1);
}

#[test]
fn a_redefined_relation_with_buffered_writes_recovers() {
    let mut w = writer_with(vec![query(1)]);
    let mut db = Fake::new();
    run(&mut w, &mut db, CdcCommand::Begin { xid: 1 }, 0).expect("begin");
    run(&mut w, &mut db, insert(&["1", "alice", "x"]), 0).expect("insert");
    w.core.frame.buf_relations.insert(USERS);
    let mut wider = users();
    wider.columns.push(column("age", 4, false, false));
    run(&mut w, &mut db, CdcCommand::TableRegister(wider), 0).expect("register");
    assert!(w.core.frame.state == FrameState::Recovering);
    run(&mut w, &mut db, insert(&["2", "alice", "x"]), 0).expect("dropped");
    assert!(w.core.frame.rows.is_empty());
    run(&mut w, &mut db, CdcCommand::CommitMark { lsn: 100 }, 9).expect("commit");
    assert_eq!(db.sent, vec!["register users true".to_owned(), DROP_USERS.to_owned()]);
    assert!(!w.core.cache.tables.contains_key(&USERS), "its cache table is dropped");
    assert!(w.core.frame.state == FrameState::Idle);
    assert_eq!(w.cdc.last_applied_lsn, 100);
}

#[test]
fn unknown_relations_are_skipped() {
    let mut w = writer_with(vec![query(1)]);
    let mut db = Fake::new();
    let cmd = CdcCommand::Insert {
        relation_oid: 7,
        row_data: values(&["1"]),
    };
    transaction(&mut w, &mut db, vec![cmd], 100, 0);
    assert!(db.sent.is_empty());
    assert_eq!(w.cdc.last_applied_lsn, 100);
}

#[test]
fn a_row_without_a_key_cell_is_an_error() {
    let mut w = writer_with(vec![query(1)]);
    let mut db = Fake::new();
    run(&mut w, &mut db, CdcCommand::Begin { xid: 1 }, 0).expect("begin");
    let cmd = CdcCommand::Delete {
        relation_oid: USERS,
        row_data: Vec::new(),
    };
    run(&mut w, &mut db, cmd, 0).expect("collected");
    let r = run(&mut w, &mut db, CdcCommand::CommitMark { lsn: 100 }, 0);
    assert!(matches!(r, Err(CacheError::NoPrimaryKey)));
}

#[test]
fn a_comparison_without_a_join_column_is_an_error() {
    let mut q = query(1);
    q.change_dependent = true;
    q.is_single_table = false;
    q.constraints.join_columns.push(pgcache_writer::query::JoinColumn {
        table: "users".to_owned(),
        column: "name".to_owned(),
    });
    let mut w = writer_with(vec![q]);
    let mut db = Fake::new();
    db.changes = Some(changed("bio"));
    run(&mut w, &mut db, CdcCommand::Begin { xid: 1 }, 0).expect("begin");
    run(&mut w, &mut db, update(&["1", "alice", "x"]), 0).expect("collected");
    let r = run(&mut w, &mut db, CdcCommand::CommitMark { lsn: 100 }, 0);
    assert!(matches!(r, Err(CacheError::ColumnMissing)));
}

#[test]
fn the_sentinel_stops_an_armed_writer_once() {
    let mut w = writer_with(vec![]);
    w.faults.writer_die = true;
    let mut db = Fake::new();
    let r = run(&mut w, &mut db, insert(&["1", "__PGCACHE_WRITER_DIE__", "x"]), 0);
    assert!(matches!(r, Err(CacheError::CdcFailure)));
    assert!(!w.faults.writer_die);
    run(&mut w, &mut db, insert(&["1", "__PGCACHE_WRITER_DIE__", "x"]), 0).expect("survives");
}

#[test]
fn only_cdc_failures_are_fatal() {
    let w = writer_with(vec![]);
    assert!(w.loop_next(LoopEvent::Query { failed: true }) == LoopVerdict::Continue);
    assert!(w.loop_next(LoopEvent::Internal { failed: true }) == LoopVerdict::Continue);
    assert!(w.loop_next(LoopEvent::Cdc { failed: false }) == LoopVerdict::Continue);
    assert!(w.loop_next(LoopEvent::Tick) == LoopVerdict::Continue);
    assert!(w.loop_next(LoopEvent::Status) == LoopVerdict::Continue);
    assert!(w.loop_next(LoopEvent::Cancelled) == LoopVerdict::Stop);
    assert!(w.loop_next(LoopEvent::Closed) == LoopVerdict::Stop);
}

#[test]
fn memos_over_a_changed_row_go_stale() {
    let mut w = writer_with(vec![query(1)]);
    w.core.cache.memo.capture(USERS, 1);
    let mut db = Fake::new();
    transaction(&mut w, &mut db, vec![insert(&["1", "alice", "x"])], 100, 0);
    assert_eq!(w.core.cache.memo.memo_version(1), 2, "stepped before the commit and after");
    assert_eq!(w.core.cache.memo.relation_version(USERS), 2);
}

#[test]
fn a_full_log_is_replayed_inside_its_frame() {
    let mut w = writer_with(vec![query(1)]);
    let mut db = Fake::new();
    run(&mut w, &mut db, CdcCommand::Begin { xid: 1 }, 0).expect("begin");
    for i in 0..4096 {
        run(&mut w, &mut db, insert(&[&format!("{i}"), "bob", "x"]), 0).expect("insert");
    }
    assert!(w.core.frame.rows.is_empty(), "replayed at the cap");
    assert!(w.core.frame.open);
    assert_eq!(w.core.frame.batch_events, 4096);
}

#[test]
fn a_full_buffer_is_sent_ahead_of_the_commit() {
    let mut w = writer_with(vec![query(1)]);
    let mut db = Fake::new();
    let long = "z".repeat(200_000);
    transaction(
        &mut w,
        &mut db,
        vec![insert(&["1", "alice", &long]), insert(&["2", "alice", &long])],
        100,
        0,
    );
    assert_eq!(db.sent.len(), 2);
    assert!(db.sent[0].starts_with("BEGIN; INSERT INTO"));
    assert_eq!(db.sent[1], "COMMIT");
}
