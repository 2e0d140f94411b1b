//! Building a query's materialized result.
//!
//! A first build is measured, where the query's shape asks for it, and makes
//! the table; a rebuild replaces the rows in one transaction. A build changes
//! no state of its query: how it ended is reported, and judged then.
use vstd::prelude::*;
use vstd::string::*;

use crate::mv::MvBuildOutcome;
use crate::mv::ShapeGate;
use crate::query_expr::body_text;
use crate::query_expr::query_text;
use crate::query_expr::select_text;
use crate::query_expr::QueryBody;
use crate::query_expr::QueryExpr;
use crate::query_expr::SelectNode;
use crate::query_expr::SelectView;
use crate::text::decimal;
use crate::text::decimal_append;
use crate::text::joined;
use crate::text::list_append;
use crate::text::texts_clone;

verus! {

/// Builds that run at once.
pub const MV_BUILD_CONNECTIONS: usize = 2;

/// What a build needs to know of its query.
pub struct MvBuildContext {
    pub fingerprint: u64,
    /// Whether the table exists: the build is a rebuild.
    pub has_table: bool,
    pub shape_gate: ShapeGate,
    /// Row cap of the materialized result.
    pub max_limit: Option<u64>,
    pub generation: u64,
    pub resolved: QueryExpr,
    /// The column names, if an earlier build found them out.
    pub output_columns: Option<Vec<String>>,
    /// How many rows must go into the query for each that comes out.
    pub mv_size_ratio: u64,
    pub mv_table: String,
}

/// The names of the first `arity` columns of a materialized table.
pub open spec fn position_names(arity: nat) -> Seq<Seq<char>> {
    Seq::new(arity, |i: int| "c"@ + decimal(i as nat))
}

/// The column list of a materialized table.
pub open spec fn columns_list(arity: nat) -> Seq<char> {
    "("@ + joined(position_names(arity), ", "@) + ")"@
}

/// The query, capped.
pub open spec fn mv_body(ctx: MvBuildContext) -> Seq<char> {
    query_text(ctx.resolved) + match ctx.max_limit {
        Some(limit) => " LIMIT "@ + decimal(limit as nat),
        None => Seq::empty(),
    }
}

/// The statements of a build.
pub open spec fn build_batch(ctx: MvBuildContext, arity: nat) -> Seq<char> {
    if ctx.has_table {
        "BEGIN; SET mem.query_generation = "@ + decimal(ctx.generation as nat) + "; TRUNCATE "@
            + ctx.mv_table@ + "; INSERT INTO "@ + ctx.mv_table@ + " "@ + columns_list(arity)
            + " "@ + mv_body(ctx) + "; COMMIT; SET mem.query_generation = 0;"@
    } else {
        "SET mem.query_generation = "@ + decimal(ctx.generation as nat)
            + "; CREATE UNLOGGED TABLE "@ + ctx.mv_table@ + " "@ + columns_list(arity) + " AS "@
            + mv_body(ctx) + "; SET mem.query_generation = 0;"@
    }
}

/// The statements that clean up after a failed build.
pub open spec fn cleanup_batch(ctx: MvBuildContext) -> Seq<char> {
    if ctx.has_table {
        "ROLLBACK; SET mem.query_generation = 0;"@
    } else {
        "SET mem.query_generation = 0; DROP TABLE IF EXISTS "@ + ctx.mv_table@ + ";"@
    }
}

/// The statement that counts the rows a table would hold.
pub open spec fn count_text(ctx: MvBuildContext) -> Seq<char> {
    "SELECT count(*) FROM ("@ + mv_body(ctx) + ") _mv_gate_src"@
}

/// The rows that go into a SELECT: what it reads and keeps, before it groups,
/// orders or cuts anything.
pub open spec fn input_rows(s: SelectView) -> SelectView {
    SelectView {
        distinct: false,
        columns: seq!["1"@],
        from: s.from,
        where_clause: s.where_clause,
        group_by: Seq::empty(),
        having: None,
    }
}

/// The rows that go into a query, as SQL. Those of a SELECT are its input; any
/// other query stands for itself, before it orders or cuts anything.
pub open spec fn source_rows_text(q: QueryExpr) -> Seq<char> {
    match q.body {
        QueryBody::Select(s) => select_text(input_rows(s@)),
        _ => body_text(q.body),
    }
}

/// The statement that counts the rows that go into a query.
pub open spec fn source_count_text(q: QueryExpr) -> Seq<char> {
    "SELECT count(*) FROM ("@ + source_rows_text(q) + ") _mv_gate_denom"@
}

/// Whether a result is small enough to be worth a table.
pub open spec fn size_gate(result_rows: nat, ratio: nat, source_rows: nat) -> bool {
    result_rows * ratio <= source_rows
}

/// A count as it is reported; a negative one is none.
pub open spec fn row_count(n: i64) -> nat {
    if n < 0 {
        0
    } else {
        n as nat
    }
}

/// The column list of a materialized table: names by position, whatever the
/// query calls its columns.
pub fn mv_columns_list(arity: usize) -> (list: String)
    ensures
        list@ == columns_list(arity as nat),
{
    let ghost names = position_names(arity as nat);
    let mut items: Vec<String> = Vec::new();
    let mut i: usize = 0;
    proof {
        assert(items.deep_view() =~= names.take(0));
    }
    while i < arity
        invariant
            i <= arity,
            names == position_names(arity as nat),
            items.deep_view() == names.take(i as int),
        decreases arity - i,
    {
        let ghost before = items.deep_view();
        let mut item = "c".to_owned();
        decimal_append(&mut item, i as u64);
        items.push(item);
        proof {
            assert(items.deep_view() =~= before.push(names[i as int]));
            assert(items.deep_view() =~= names.take(i as int + 1));
        }
        i = i + 1;
    }
    proof {
        assert(names.take(i as int) =~= names);
    }
    let mut list = "(".to_owned();
    list_append(&mut list, &items, ", ");
    list.append(")");
    list
}

/// Append the query, capped.
fn mv_body_append(buf: &mut String, ctx: &MvBuildContext)
    ensures
        final(buf)@ == old(buf)@ + mv_body(*ctx),
{
    let ghost start = buf@;
    ctx.resolved.deparse(buf);
    if let Some(limit) = ctx.max_limit {
        buf.append(" LIMIT ");
        decimal_append(buf, limit);
    }
    proof {
        assert(buf@ =~= start + mv_body(*ctx));
    }
}

/// The statements of a build of a table with `arity` columns.
pub fn mv_build_batch(ctx: &MvBuildContext, arity: usize) -> (sql: String)
    ensures
        sql@ == build_batch(*ctx, arity as nat),
{
    let columns = mv_columns_list(arity);
    let mut sql = String::new();
    if ctx.has_table {
        sql.append("BEGIN; SET mem.query_generation = ");
        decimal_append(&mut sql, ctx.generation);
        sql.append("; TRUNCATE ");
        sql.append(ctx.mv_table.as_str());
        sql.append("; INSERT INTO ");
        sql.append(ctx.mv_table.as_str());
        sql.append(" ");
        sql.append(columns.as_str());
        sql.append(" ");
        mv_body_append(&mut sql, ctx);
        sql.append("; COMMIT; SET mem.query_generation = 0;");
    } else {
        sql.append("SET mem.query_generation = ");
        decimal_append(&mut sql, ctx.generation);
        sql.append("; CREATE UNLOGGED TABLE ");
        sql.append(ctx.mv_table.as_str());
        sql.append(" ");
        sql.append(columns.as_str());
        sql.append(" AS ");
        mv_body_append(&mut sql, ctx);
        sql.append("; SET mem.query_generation = 0;");
    }
    proof {
        assert(sql@ =~= build_batch(*ctx, arity as nat));
    }
    sql
}

/// The statements that clean up after a failed build.
pub fn mv_cleanup_batch(ctx: &MvBuildContext) -> (sql: String)
    ensures
        sql@ == cleanup_batch(*ctx),
{
    if ctx.has_table {
        "ROLLBACK; SET mem.query_generation = 0;".to_owned()
    } else {
        let mut sql = "SET mem.query_generation = 0; DROP TABLE IF EXISTS ".to_owned();
        sql.append(ctx.mv_table.as_str());
        sql.append(";");
        sql
    }
}

/// The statement that counts the rows a table would hold.
pub fn mv_count_sql(ctx: &MvBuildContext) -> (sql: String)
    ensures
        sql@ == count_text(*ctx),
{
    let mut sql = "SELECT count(*) FROM (".to_owned();
    mv_body_append(&mut sql, ctx);
    sql.append(") _mv_gate_src");
    sql
}

/// The statement that finds out the column names of a query.
pub fn mv_describe_sql(ctx: &MvBuildContext) -> (sql: String)
    ensures
        sql@ == query_text(ctx.resolved) + " LIMIT 0"@,
{
    let mut sql = String::new();
    ctx.resolved.deparse(&mut sql);
    sql.append(" LIMIT 0");
    proof {
        assert(sql@ =~= query_text(ctx.resolved) + " LIMIT 0"@);
    }
    sql
}

/// The statement that counts the rows that go into a query: the rows it
/// aggregates, not those it returns.
pub fn mv_source_count_sql(resolved: &QueryExpr) -> (sql: String)
    ensures
        sql@ == source_count_text(*resolved),
{
    let mut sql = "SELECT count(*) FROM (".to_owned();
    let ghost start = sql@;
    match &resolved.body {
        QueryBody::Select(select) => {
            select_input_append(&mut sql, select);
        },
        body => {
            body.deparse(&mut sql);
        },
    }
    proof {
        assert(sql@ == start + source_rows_text(*resolved));
    }
    sql.append(") _mv_gate_denom");
    sql
}

fn select_input_append(buf: &mut String, select: &SelectNode)
    ensures
        final(buf)@ == old(buf)@ + select_text(input_rows(select@)),
{
    let mut columns: Vec<String> = Vec::new();
    columns.push("1".to_owned());
    let stripped = SelectNode {
        distinct: false,
        columns,
        from: texts_clone(&select.from),
        where_clause: select.where_clause.clone(),
        group_by: Vec::new(),
        having: None,
    };
    proof {
        assert(stripped@.columns =~= input_rows(select@).columns);
        assert(stripped@.group_by =~= input_rows(select@).group_by);
    }
    stripped.deparse(buf);
}

/// Whether a result is small enough to be worth a table.
pub fn mv_size_gate_passes(result_rows: i64, mv_size_ratio: u64, source_rows: i64) -> (passes: bool)
    ensures
        passes == size_gate(row_count(result_rows), mv_size_ratio as nat, row_count(source_rows)),
{
    let result: u64 = if result_rows < 0 {
        0
    } else {
        result_rows as u64
    };
    let source: u64 = if source_rows < 0 {
        0
    } else {
        source_rows as u64
    };
    match result.checked_mul(mv_size_ratio) {
        Some(product) => product <= source,
        None => false,
    }
}

/// The measure counts the same rows whatever a SELECT returns, groups, orders or
/// cuts: only what it reads and keeps counts.
pub proof fn source_count_depends_on_input_only(a: QueryExpr, b: QueryExpr)
    requires
        a.body matches QueryBody::Select(s) && b.body matches QueryBody::Select(t) && s@.from
            == t@.from && s@.where_clause == t@.where_clause,
    ensures
        source_count_text(a) == source_count_text(b),
{
}

/// The measure never counts a cut result: a query that is no SELECT is counted
/// whole, without its order and limit.
pub proof fn source_count_ignores_order_and_limit(a: QueryExpr, b: QueryExpr)
    requires
        a.body == b.body,
    ensures
        source_count_text(a) == source_count_text(b),
{
}

/// Where a build stands.
#[derive(Clone, Copy, PartialEq, Eq, Structural)]
pub enum BuildStage {
    /// The rows that go into the query are being counted.
    SourceCount,
    /// The rows that the count reads are about to be stamped.
    StampCount,
    /// The rows that come out are being counted.
    ResultCount,
    /// The stamp is being taken back.
    StampReset,
    /// The column names are being found out.
    Describe,
    /// The table is being built.
    Run,
    /// What a failed build left is being cleaned up.
    Cleanup,
    /// The build is over.
    Done,
}

/// What came back of a statement.
pub enum BuildReply {
    /// A count.
    Count(i64),
    /// Column names.
    Columns(Vec<String>),
    /// The statement is done.
    Finished,
    /// The statement failed.
    Failed,
}

/// How a build ended, or that it has not.
#[derive(Clone, Copy, PartialEq, Eq, Structural)]
pub enum BuildVerdict {
    Open,
    Built,
    Ineligible,
    Failed,
}

/// A build.
pub struct MvBuild {
    pub ctx: MvBuildContext,
    pub stage: BuildStage,
    pub source_rows: i64,
    /// The rows that come out, if they could be counted.
    pub result_rows: Option<i64>,
    pub names: Vec<String>,
    pub verdict: BuildVerdict,
}

/// The mathematical value of an [`MvBuild`], but for what it is about.
#[verifier::ext_equal]
pub struct BuildView {
    pub stage: BuildStage,
    pub source_rows: i64,
    pub result_rows: Option<i64>,
    pub names: Seq<Seq<char>>,
    pub verdict: BuildVerdict,
}

impl View for MvBuild {
    type V = BuildView;

    open spec fn view(&self) -> BuildView {
        BuildView {
            stage: self.stage,
            source_rows: self.source_rows,
            result_rows: self.result_rows,
            names: self.names.deep_view(),
            verdict: self.verdict,
        }
    }
}

/// A build that is over.
pub open spec fn build_over(b: BuildView, verdict: BuildVerdict) -> BuildView {
    BuildView { stage: BuildStage::Done, verdict, ..b }
}

/// A build that may go on: the column names are found out, unless they are
/// known.
pub open spec fn build_allowed(b: BuildView, known: Option<Seq<Seq<char>>>) -> BuildView {
    match known {
        Some(names) => BuildView { names, stage: BuildStage::Run, ..b },
        None => BuildView { stage: BuildStage::Describe, ..b },
    }
}

/// A build as it begins. A rebuild was measured before; a first build is
/// measured if its shape asks for it.
pub open spec fn build_begun(
    has_table: bool,
    gate: ShapeGate,
    known: Option<Seq<Seq<char>>>,
) -> BuildView {
    let none = BuildView {
        stage: BuildStage::SourceCount,
        source_rows: 0,
        result_rows: None,
        names: Seq::empty(),
        verdict: BuildVerdict::Open,
    };
    if has_table || gate == ShapeGate::Materialize {
        build_allowed(none, known)
    } else if gate == ShapeGate::Skip {
        build_over(none, BuildVerdict::Ineligible)
    } else {
        none
    }
}

/// A build after a reply. The stamp is taken back whether the count succeeded
/// or not, and a failed build is cleaned up.
pub open spec fn build_answered(
    b: BuildView,
    ratio: u64,
    known: Option<Seq<Seq<char>>>,
    reply: BuildReply,
) -> BuildView {
    match (b.stage, reply) {
        (BuildStage::SourceCount, BuildReply::Count(n)) => BuildView {
            source_rows: n,
            stage: BuildStage::StampCount,
            ..b
        },
        (BuildStage::StampCount, BuildReply::Finished) => BuildView {
            stage: BuildStage::ResultCount,
            ..b
        },
        (BuildStage::ResultCount, BuildReply::Count(n)) => BuildView {
            result_rows: Some(n),
            stage: BuildStage::StampReset,
            ..b
        },
        (BuildStage::ResultCount, _) => BuildView {
            result_rows: None,
            stage: BuildStage::StampReset,
            ..b
        },
        (BuildStage::StampReset, _) => match b.result_rows {
            Some(n) => if size_gate(row_count(n), ratio as nat, row_count(b.source_rows)) {
                build_allowed(b, known)
            } else {
                build_over(b, BuildVerdict::Ineligible)
            },
            None => build_over(b, BuildVerdict::Failed),
        },
        (BuildStage::Describe, BuildReply::Columns(names)) => if names.deep_view().len() > 0 {
            BuildView { names: names.deep_view(), stage: BuildStage::Run, ..b }
        } else {
            build_over(b, BuildVerdict::Failed)
        },
        (BuildStage::Run, BuildReply::Finished) => build_over(b, BuildVerdict::Built),
        (BuildStage::Run, _) => BuildView { stage: BuildStage::Cleanup, ..b },
        (BuildStage::Done, _) => b,
        _ => build_over(b, BuildVerdict::Failed),
    }
}

/// The statement that a build is to run; `None` when it is over.
pub open spec fn build_statement(ctx: MvBuildContext, b: BuildView) -> Option<Seq<char>> {
    match b.stage {
        BuildStage::SourceCount => Some(source_count_text(ctx.resolved)),
        BuildStage::StampCount => Some(
            "SET mem.query_generation = "@ + decimal(ctx.generation as nat),
        ),
        BuildStage::ResultCount => Some(count_text(ctx)),
        BuildStage::StampReset => Some("SET mem.query_generation = 0"@),
        BuildStage::Describe => Some(query_text(ctx.resolved) + " LIMIT 0"@),
        BuildStage::Run => Some(build_batch(ctx, b.names.len())),
        BuildStage::Cleanup => Some(cleanup_batch(ctx)),
        BuildStage::Done => None,
    }
}

impl MvBuild {
    /// A build as it begins.
    pub fn new(ctx: MvBuildContext) -> (b: MvBuild)
        ensures
            b.ctx == ctx,
            b@ == build_begun(
                ctx.has_table,
                ctx.shape_gate,
                ctx.output_columns.deep_view(),
            ),
    {
        let gate = ctx.shape_gate;
        let has_table = ctx.has_table;
        let mut b = MvBuild {
            ctx,
            stage: BuildStage::SourceCount,
            source_rows: 0,
            result_rows: None,
            names: Vec::new(),
            verdict: BuildVerdict::Open,
        };
        proof {
            assert(b.names.deep_view() =~= Seq::<Seq<char>>::empty());
        }
        if has_table {
            b.allow();
        } else {
            match gate {
                ShapeGate::Materialize => {
                    b.allow();
                },
                ShapeGate::Skip => {
                    b.end(BuildVerdict::Ineligible);
                },
                ShapeGate::Measure => {},
            }
        }
        b
    }

    fn allow(&mut self)
        ensures
            final(self).ctx == old(self).ctx,
            final(self)@ == build_allowed(old(self)@, old(self).ctx.output_columns.deep_view()),
    {
        match &self.ctx.output_columns {
            Some(names) => {
                self.names = texts_clone(names);
                self.stage = BuildStage::Run;
            },
            None => {
                self.stage = BuildStage::Describe;
            },
        }
    }

    fn end(&mut self, verdict: BuildVerdict)
        ensures
            final(self).ctx == old(self).ctx,
            final(self)@ == build_over(old(self)@, verdict),
    {
        self.stage = BuildStage::Done;
        self.verdict = verdict;
    }

    /// The statement that is to run; `None` when the build is over.
    pub fn statement(&self) -> (sql: Option<String>)
        ensures
            match sql {
                Some(text) => build_statement(self.ctx, self@) == Some(text@),
                None => build_statement(self.ctx, self@) is None,
            },
    {
        match self.stage {
            BuildStage::SourceCount => Some(mv_source_count_sql(&self.ctx.resolved)),
            BuildStage::StampCount => {
                let mut sql = "SET mem.query_generation = ".to_owned();
                decimal_append(&mut sql, self.ctx.generation);
                Some(sql)
            },
            BuildStage::ResultCount => Some(mv_count_sql(&self.ctx)),
            BuildStage::StampReset => Some("SET mem.query_generation = 0".to_owned()),
            BuildStage::Describe => Some(mv_describe_sql(&self.ctx)),
            BuildStage::Run => Some(mv_build_batch(&self.ctx, self.names.len())),
            BuildStage::Cleanup => Some(mv_cleanup_batch(&self.ctx)),
            BuildStage::Done => None,
        }
    }

    /// Take in the reply to the statement.
    pub fn answer(&mut self, reply: BuildReply)
        ensures
            final(self).ctx == old(self).ctx,
            final(self)@ == build_answered(
                old(self)@,
                old(self).ctx.mv_size_ratio,
                old(self).ctx.output_columns.deep_view(),
                reply,
            ),
    {
        match (self.stage, reply) {
            (BuildStage::SourceCount, BuildReply::Count(n)) => {
                self.source_rows = n;
                self.stage = BuildStage::StampCount;
            },
            (BuildStage::StampCount, BuildReply::Finished) => {
                self.stage = BuildStage::ResultCount;
            },
            (BuildStage::ResultCount, BuildReply::Count(n)) => {
                self.result_rows = Some(n);
                self.stage = BuildStage::StampReset;
            },
            (BuildStage::ResultCount, _) => {
                self.result_rows = None;
                self.stage = BuildStage::StampReset;
            },
            (BuildStage::StampReset, _) => {
                match self.result_rows {
                    Some(n) => {
                        if mv_size_gate_passes(n, self.ctx.mv_size_ratio, self.source_rows) {
                            self.allow();
                        } else {
                            self.end(BuildVerdict::Ineligible);
                        }
                    },
                    None => {
                        self.end(BuildVerdict::Failed);
                    },
                }
            },
            (BuildStage::Describe, BuildReply::Columns(names)) => {
                if names.len() > 0 {
                    self.names = names;
                    self.stage = BuildStage::Run;
                } else {
                    self.end(BuildVerdict::Failed);
                }
            },
            (BuildStage::Run, BuildReply::Finished) => {
                self.end(BuildVerdict::Built);
            },
            (BuildStage::Run, _) => {
                self.stage = BuildStage::Cleanup;
            },
            (BuildStage::Done, _) => {},
            _ => {
                self.end(BuildVerdict::Failed);
            },
        }
    }

    /// How the build ended. One that has not counts as failed.
    pub fn outcome(self) -> (outcome: MvBuildOutcome)
        ensures
            match outcome {
                MvBuildOutcome::Built { output_columns, was_first_build } => {
                    &&& self@.verdict == BuildVerdict::Built
                    &&& output_columns.deep_view() == self@.names
                    &&& was_first_build == !self.ctx.has_table
                },
                MvBuildOutcome::Ineligible => self@.verdict == BuildVerdict::Ineligible,
                MvBuildOutcome::Failed { has_table } => {
                    &&& self@.verdict == BuildVerdict::Failed || self@.verdict
                        == BuildVerdict::Open
                    &&& has_table == self.ctx.has_table
                },
            },
    {
        match self.verdict {
            BuildVerdict::Built => MvBuildOutcome::Built {
                output_columns: self.names,
                was_first_build: !self.ctx.has_table,
            },
            BuildVerdict::Ineligible => MvBuildOutcome::Ineligible,
            BuildVerdict::Failed => MvBuildOutcome::Failed { has_table: self.ctx.has_table },
            BuildVerdict::Open => MvBuildOutcome::Failed { has_table: self.ctx.has_table },
        }
    }
}

/// A build whose stamp is set always takes it back: after the stamped count
/// the reset follows, whatever the count's reply.
pub proof fn stamped_count_is_reset(
    b: BuildView,
    ratio: u64,
    known: Option<Seq<Seq<char>>>,
    reply: BuildReply,
)
    requires
        b.stage == BuildStage::ResultCount,
    ensures
        build_answered(b, ratio, known, reply).stage == BuildStage::StampReset,
{
}

/// A table is only ever built with column names, and a build is only reported
/// as built when its statements succeeded.
pub proof fn built_only_when_run(
    b: BuildView,
    ratio: u64,
    known: Option<Seq<Seq<char>>>,
    reply: BuildReply,
)
    requires
        b.verdict != BuildVerdict::Built,
        known matches Some(names) ==> names.len() > 0,
        b.stage == BuildStage::Run ==> b.names.len() > 0,
    ensures
        ({
            let after = build_answered(b, ratio, known, reply);
            &&& after.verdict == BuildVerdict::Built ==> b.stage == BuildStage::Run
                && reply is Finished
            &&& after.stage == BuildStage::Run ==> after.names.len() > 0
        }),
{
}

} // verus!
