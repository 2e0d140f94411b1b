//! What a written query keeps: every clause, in order, and nothing else. And
//! what the statements over a materialized result do with it.
use vstd::prelude::*;

use crate::mv::ShapeGate;
use crate::mv_build::build_answered;
use crate::mv_build::build_batch;
use crate::mv_build::build_begun;
use crate::mv_build::build_statement;
use crate::mv_build::cleanup_batch;
use crate::mv_build::columns_list;
use crate::mv_build::count_text;
use crate::mv_build::mv_body;
use crate::mv_build::size_gate;
use crate::mv_build::source_count_text;
use crate::mv_build::BuildReply;
use crate::mv_build::BuildStage;
use crate::mv_build::BuildVerdict;
use crate::mv_build::BuildView;
use crate::mv_build::MvBuildContext;
use crate::query_expr::body_text;
use crate::query_expr::query_text;
use crate::query_expr::select_text;
use crate::query_expr::QueryBody;
use crate::query_expr::QueryExpr;
use crate::query_expr::SelectView;
use crate::query_expr::SetOperator;
use crate::text::decimal;
use crate::text::joined;

verus! {

/// A SELECT with nothing but its columns is written as these.
pub proof fn bare_select_lists_its_columns(s: SelectView)
    requires
        s.from.len() == 0,
        s.where_clause is None,
        s.group_by.len() == 0,
        s.having is None,
    ensures
        select_text(s) == (if s.distinct {
            "SELECT DISTINCT "@
        } else {
            "SELECT "@
        }) + joined(s.columns, ", "@),
{
    reveal_strlit("SELECT DISTINCT ");
    reveal_strlit("SELECT ");
    reveal_strlit("DISTINCT ");
    assert("SELECT DISTINCT "@ =~= "SELECT "@ + "DISTINCT "@);
    assert(select_text(s) =~= (if s.distinct {
        "SELECT DISTINCT "@
    } else {
        "SELECT "@
    }) + joined(s.columns, ", "@));
}

/// Each clause of a SELECT is written behind those before it: leaving a clause
/// out takes exactly its keyword and its expressions away. So no clause that a
/// query has is ever lost, and none is made up.
pub proof fn select_keeps_every_clause(s: SelectView)
    ensures
        s.having matches Some(h) ==> select_text(s) == select_text(
            SelectView { having: None, ..s },
        ) + " HAVING "@ + h,
        s.having is None && s.group_by.len() > 0 ==> select_text(s) == select_text(
            SelectView { group_by: Seq::empty(), ..s },
        ) + " GROUP BY "@ + joined(s.group_by, ", "@),
        s.having is None && s.group_by.len() == 0 ==> (s.where_clause matches Some(w)
            ==> select_text(s) == select_text(SelectView { where_clause: None, ..s }) + " WHERE "@
            + w),
        s.having is None && s.group_by.len() == 0 && s.where_clause is None && s.from.len() > 0
            ==> select_text(s) == select_text(SelectView { from: Seq::empty(), ..s }) + " FROM "@
            + joined(s.from, ", "@),
{
    match s.having {
        Some(h) => {
            assert(select_text(s) =~= select_text(SelectView { having: None, ..s }) + " HAVING "@
                + h);
        },
        None => {
            if s.group_by.len() > 0 {
                assert(select_text(s) =~= select_text(SelectView { group_by: Seq::empty(), ..s })
                    + " GROUP BY "@ + joined(s.group_by, ", "@));
            } else {
                match s.where_clause {
                    Some(w) => {
                        assert(select_text(s) =~= select_text(
                            SelectView { where_clause: None, ..s },
                        ) + " WHERE "@ + w);
                    },
                    None => {
                        if s.from.len() > 0 {
                            assert(select_text(s) =~= select_text(
                                SelectView { from: Seq::empty(), ..s },
                            ) + " FROM "@ + joined(s.from, ", "@));
                        }
                    },
                }
            }
        },
    }
}

/// A query is what its rows come from, then its order, then its limit.
pub proof fn query_keeps_order_and_limit(body: QueryBody, order_by: Vec<String>, limit: Option<String>)
    ensures
        ({
            let q = QueryExpr { body, order_by, limit };
            query_text(q) == body_text(body) + (if order_by@.len() > 0 {
                " ORDER BY "@ + joined(order_by.deep_view(), ", "@)
            } else {
                Seq::empty()
            }) + (match limit {
                Some(l) => " LIMIT "@ + l@,
                None => Seq::empty(),
            })
        }),
{
}

/// The rows of a query are written as its SELECT, as its tuples, or as its two
/// parts with their operator between, the left one first.
pub proof fn body_is_written_as_what_it_is(b: QueryBody)
    ensures
        match b {
            QueryBody::Select(s) => body_text(b) == select_text(s@),
            QueryBody::Values(rows) => body_text(b) == "VALUES "@ + joined(rows.deep_view(), ", "@),
            QueryBody::SetOp { op, all, left, right } => body_text(b) == query_text(*left) + (match (
                op,
                all,
            ) {
                (SetOperator::Union, false) => " UNION "@,
                (SetOperator::Union, true) => " UNION ALL "@,
                (SetOperator::Intersect, false) => " INTERSECT "@,
                (SetOperator::Intersect, true) => " INTERSECT ALL "@,
                (SetOperator::Except, false) => " EXCEPT "@,
                (SetOperator::Except, true) => " EXCEPT ALL "@,
            }) + query_text(*right),
        },
{
    reveal_strlit(" UNION ");
    reveal_strlit(" UNION ALL ");
    reveal_strlit(" INTERSECT ");
    reveal_strlit(" INTERSECT ALL ");
    reveal_strlit(" EXCEPT ");
    reveal_strlit(" EXCEPT ALL ");
    reveal_strlit("ALL ");
    assert(" UNION ALL "@ =~= " UNION "@ + "ALL "@);
    assert(" INTERSECT ALL "@ =~= " INTERSECT "@ + "ALL "@);
    assert(" EXCEPT ALL "@ =~= " EXCEPT "@ + "ALL "@);
    if let QueryBody::SetOp { op, all, left, right } = b {
        assert(crate::query_expr::operator_text(op, all) =~= (match (op, all) {
            (SetOperator::Union, false) => " UNION "@,
            (SetOperator::Union, true) => " UNION ALL "@,
            (SetOperator::Intersect, false) => " INTERSECT "@,
            (SetOperator::Intersect, true) => " INTERSECT ALL "@,
            (SetOperator::Except, false) => " EXCEPT "@,
            (SetOperator::Except, true) => " EXCEPT ALL "@,
        }));
    }
}

/// What fills a materialized table: the whole query, and behind it the cap on
/// its rows, if there is one.
pub open spec fn result_rows(ctx: MvBuildContext) -> Seq<char> {
    query_text(ctx.resolved) + (if ctx.max_limit is Some {
        " LIMIT "@ + decimal(ctx.max_limit->0 as nat)
    } else {
        Seq::empty()
    })
}

/// The columns of a materialized table: one for each that the query returns,
/// named by its place.
pub open spec fn place_names(arity: nat) -> Seq<char> {
    "("@ + joined(Seq::new(arity, |i: int| "c"@ + decimal(i as nat)), ", "@) + ")"@
}

/// A first build creates the table from the query, and a rebuild empties it and
/// fills it again in one transaction; either way the rows that the query reads
/// are stamped with its generation, and the stamp is taken back at the end.
pub proof fn build_fills_the_table_with_the_query(ctx: MvBuildContext, arity: nat)
    ensures
        mv_body(ctx) == result_rows(ctx),
        columns_list(arity) == place_names(arity),
        !ctx.has_table ==> build_batch(ctx, arity) == "SET mem.query_generation = "@ + decimal(
            ctx.generation as nat,
        ) + "; CREATE UNLOGGED TABLE "@ + ctx.mv_table@ + " "@ + place_names(arity) + " AS "@
            + result_rows(ctx) + "; SET mem.query_generation = 0;"@,
        ctx.has_table ==> build_batch(ctx, arity) == "BEGIN; SET mem.query_generation = "@
            + decimal(ctx.generation as nat) + "; TRUNCATE "@ + ctx.mv_table@ + "; INSERT INTO "@
            + ctx.mv_table@ + " "@ + place_names(arity) + " "@ + result_rows(ctx)
            + "; COMMIT; SET mem.query_generation = 0;"@,
{
    assert(mv_body(ctx) =~= result_rows(ctx));
    assert(columns_list(arity) =~= place_names(arity));
}

/// A failed build leaves nothing behind: a rebuild is rolled back, so that the
/// table keeps its rows, and what a first build made is dropped.
pub proof fn failed_build_is_undone(ctx: MvBuildContext)
    ensures
        ctx.has_table ==> cleanup_batch(ctx) == "ROLLBACK; SET mem.query_generation = 0;"@,
        !ctx.has_table ==> cleanup_batch(ctx) == "SET mem.query_generation = 0; DROP TABLE IF EXISTS "@
            + ctx.mv_table@ + ";"@,
{
}

/// The measure counts the rows that would fill the table, against those that
/// the query reads: of a SELECT those of its FROM clause that its WHERE clause
/// keeps, of any other query its own.
pub proof fn measure_compares_output_with_input(ctx: MvBuildContext, q: QueryExpr)
    ensures
        count_text(ctx) == "SELECT count(*) FROM ("@ + result_rows(ctx) + ") _mv_gate_src"@,
        match q.body {
            QueryBody::Select(s) => source_count_text(q) == "SELECT count(*) FROM ("@ + select_text(
                SelectView {
                    distinct: false,
                    columns: seq!["1"@],
                    group_by: Seq::empty(),
                    having: None,
                    ..s@
                },
            ) + ") _mv_gate_denom"@,
            _ => source_count_text(q) == "SELECT count(*) FROM ("@ + body_text(q.body)
                + ") _mv_gate_denom"@,
        },
{
    assert(mv_body(ctx) =~= result_rows(ctx));
    if let QueryBody::Select(s) = q.body {
        assert(crate::mv_build::input_rows(s@) == (SelectView {
            distinct: false,
            columns: seq!["1"@],
            group_by: Seq::empty(),
            having: None,
            ..s@
        }));
    }
}

/// A result is worth a table exactly if enough rows go in for each that comes
/// out. The more go in, or the fewer come out, the more it is; an empty result
/// always is.
pub proof fn size_gate_is_monotone(result: nat, ratio: nat, source: nat, less: nat, more: nat)
    requires
        less <= result,
        more >= source,
    ensures
        size_gate(result, ratio, source) ==> size_gate(less, ratio, more),
        size_gate(0, ratio, source),
        size_gate(result, 1, source) == (result <= source),
        ratio > 0 && result > source ==> !size_gate(result, ratio, source),
        size_gate(result, ratio, result * ratio),
        ratio > 0 && result > 0 ==> !size_gate(result, ratio, (result * ratio - 1) as nat),
{
    assert(less * ratio <= result * ratio) by (nonlinear_arith)
        requires
            less <= result,
    ;
    assert(ratio > 0 && result > source ==> result * ratio > source) by (nonlinear_arith);
    assert(0 * ratio == 0) by (nonlinear_arith);
    assert(ratio > 0 && result > 0 ==> result * ratio > 0) by (nonlinear_arith);
}

/// A build is measured exactly if its shape asks for it and it is the first;
/// one whose shape forbids it never runs. The column names are found out unless
/// they are known.
pub proof fn build_is_measured_when_asked(
    has_table: bool,
    gate: ShapeGate,
    known: Option<Seq<Seq<char>>>,
)
    ensures
        ({
            let b = build_begun(has_table, gate, known);
            let ready = if known is Some {
                BuildStage::Run
            } else {
                BuildStage::Describe
            };
            &&& has_table ==> b.stage == ready
            &&& !has_table && gate == ShapeGate::Materialize ==> b.stage == ready
            &&& !has_table && gate == ShapeGate::Measure ==> b.stage == BuildStage::SourceCount
            &&& !has_table && gate == ShapeGate::Skip ==> b.stage == BuildStage::Done && b.verdict
                == BuildVerdict::Ineligible
            &&& b.stage == BuildStage::Run ==> b.names == known->0
        }),
{
}

/// A measured build goes on exactly if its result is worth a table: the counts
/// that came back decide, and a count that failed ends it.
pub proof fn measured_build_goes_on_when_worth_it(
    b: BuildView,
    ratio: u64,
    known: Option<Seq<Seq<char>>>,
    reply: BuildReply,
)
    requires
        b.stage == BuildStage::StampReset,
        b.source_rows >= 0,
    ensures
        ({
            let after = build_answered(b, ratio, known, reply);
            match b.result_rows {
                Some(n) => if n <= 0 || n * ratio <= b.source_rows {
                    after.stage == (if known is Some {
                        BuildStage::Run
                    } else {
                        BuildStage::Describe
                    })
                } else {
                    after.stage == BuildStage::Done && after.verdict == BuildVerdict::Ineligible
                },
                None => after.stage == BuildStage::Done && after.verdict == BuildVerdict::Failed,
            }
        }),
{
    match b.result_rows {
        Some(n) => {
            assert(0 * ratio == 0) by (nonlinear_arith);
        },
        None => {},
    }
}

/// Each stage of a build runs its statement: the counts their measure, the
/// stamp with the query's generation, and the build with as many columns as the
/// query has.
pub proof fn build_runs_the_statement_of_its_stage(ctx: MvBuildContext, b: BuildView)
    ensures
        match b.stage {
            BuildStage::SourceCount => build_statement(ctx, b) == Some(
                source_count_text(ctx.resolved),
            ),
            BuildStage::StampCount => build_statement(ctx, b) == Some(
                "SET mem.query_generation = "@ + decimal(ctx.generation as nat),
            ),
            BuildStage::ResultCount => build_statement(ctx, b) == Some(count_text(ctx)),
            BuildStage::StampReset => build_statement(ctx, b) == Some(
                "SET mem.query_generation = 0"@,
            ),
            BuildStage::Describe => build_statement(ctx, b) == Some(
                query_text(ctx.resolved) + " LIMIT 0"@,
            ),
            BuildStage::Run => build_statement(ctx, b) == Some(build_batch(ctx, b.names.len())),
            BuildStage::Cleanup => build_statement(ctx, b) == Some(cleanup_batch(ctx)),
            BuildStage::Done => build_statement(ctx, b) is None,
        },
{
}

/// A build ends as what came of it: built when its statements ran, failed when
/// a statement failed, and a failed run is cleaned up first.
pub proof fn build_ends_as_what_came_of_it(
    b: BuildView,
    ratio: u64,
    known: Option<Seq<Seq<char>>>,
    reply: BuildReply,
)
    ensures
        ({
            let after = build_answered(b, ratio, known, reply);
            &&& b.stage == BuildStage::Run && reply is Finished ==> after.stage == BuildStage::Done
                && after.verdict == BuildVerdict::Built
            &&& b.stage == BuildStage::Run && !(reply is Finished) ==> after.stage
                == BuildStage::Cleanup
            &&& b.stage == BuildStage::Cleanup ==> after.stage == BuildStage::Done && after.verdict
                == BuildVerdict::Failed
            &&& b.stage == BuildStage::SourceCount && reply is Failed ==> after.stage
                == BuildStage::Done && after.verdict == BuildVerdict::Failed
            &&& (b.stage == BuildStage::SourceCount ==> (reply matches BuildReply::Count(n)
                ==> after.source_rows == n && after.stage == BuildStage::StampCount))
            &&& (b.stage == BuildStage::ResultCount ==> (reply matches BuildReply::Count(n)
                ==> after.result_rows == Some(n)))
            &&& b.stage == BuildStage::ResultCount && reply is Failed ==> after.result_rows is None
            &&& b.stage == BuildStage::StampCount && reply is Finished ==> after.stage
                == BuildStage::ResultCount
            &&& b.stage == BuildStage::Describe && reply is Failed ==> after.stage
                == BuildStage::Done && after.verdict == BuildVerdict::Failed
            &&& (b.stage == BuildStage::Describe ==> (reply matches BuildReply::Columns(names) ==> (
            if names@.len() > 0 {
                after.names == names.deep_view() && after.stage == BuildStage::Run
            } else {
                after.stage == BuildStage::Done && after.verdict == BuildVerdict::Failed
            })))
        }),
{
}

} // verus!
