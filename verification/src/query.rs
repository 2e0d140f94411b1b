//! Cached queries, as the CDC path sees them: one update query per relation a
//! cached query reads.
use vstd::prelude::*;
use vstd::string::*;

use crate::catalog::cell_at;
use crate::catalog::named_cell;
use crate::catalog::row_get;
use crate::catalog::ColumnMetadata;
use crate::catalog::Row;
use crate::catalog::RowView;
use crate::catalog::TableMetadata;
use crate::values::cast_target_coerce_text;
use crate::values::coerced;
use crate::values::literal_compare;
use crate::values::literal_holds;
use crate::values::text_holds;
use crate::values::where_value_compare_string;
use crate::values::BinaryOp;
use crate::values::CastTarget;
use crate::values::LiteralValue;

verus! {

/// A condition a cached query puts on one column of a relation.
#[derive(Clone, Debug)]
pub enum TableConstraint {
    /// `column op literal`
    Comparison(String, BinaryOp, LiteralValue),
    /// `column IN (literal, …)`
    AnyOf(String, Vec<LiteralValue>),
    /// `column::target op literal`
    CastComparison(String, CastTarget, BinaryOp, LiteralValue),
}

/// The conditions on one relation; a row of it must meet them all.
#[derive(Clone, Debug)]
pub struct RelationConstraints {
    pub table: String,
    pub constraints: Vec<TableConstraint>,
}

/// A column through which a relation is joined.
#[derive(Clone, Debug)]
pub struct JoinColumn {
    pub table: String,
    pub column: String,
}

/// What is known of the rows a cached query can return.
#[derive(Clone, Debug)]
pub struct QueryConstraints {
    pub table_constraints: Vec<RelationConstraints>,
    pub join_columns: Vec<JoinColumn>,
}

/// How a subquery's rows bear on the outer result.
#[derive(Clone, Copy, Debug, PartialEq, Eq, Structural)]
pub enum SubqueryKind {
    /// `IN`, `EXISTS`: more rows can only grow the result.
    Inclusion,
    /// `NOT IN`, `NOT EXISTS`: more rows can only shrink the result.
    Exclusion,
    /// A value: any change can do either.
    Scalar,
}

/// Where in a cached query a relation stands.
#[derive(Clone, Copy, Debug, PartialEq, Eq, Structural)]
pub enum UpdateQuerySource {
    /// The FROM clause, through inner joins only.
    FromClause,
    Subquery(SubqueryKind),
    /// Optional side of an outer join that nothing else depends on.
    OuterJoinTerminal,
    /// Optional side of an outer join that other relations depend on.
    OuterJoinOptional,
}

/// Who evaluates a query's membership predicate.
#[derive(Clone, Copy, Debug, PartialEq, Eq, Structural)]
pub enum UpdateEvalStrategy {
    LocalEval,
    PgEval,
}

/// A WHERE clause compiled against row positions.
#[derive(Debug)]
pub enum RowPredicate {
    Comparison(usize, BinaryOp, LiteralValue),
    IsNull(usize),
    Not(Box<RowPredicate>),
    And(Box<RowPredicate>, Box<RowPredicate>),
    Or(Box<RowPredicate>, Box<RowPredicate>),
}

/// A piece of a statement into which a row's cells are rendered.
#[derive(Clone, Debug)]
pub enum TemplatePiece {
    Text(String),
    /// The row's cell at this index, as SQL.
    Cell(usize),
}

/// A cached query as one relation's changes bear on it.
#[derive(Debug)]
pub struct UpdateQuery {
    pub fingerprint: u64,
    pub source: UpdateQuerySource,
    pub has_limit: bool,
    pub is_single_table: bool,
    /// Columns of the relation that the query's predicates read.
    pub predicate_columns: Vec<String>,
    /// Columns of the relation that bound the query's LIMIT window.
    pub limit_window_columns: Vec<String>,
    pub constraints: QueryConstraints,
    pub eval_strategy: UpdateEvalStrategy,
    /// Whether membership of many rows can be asked in one statement.
    pub pg_batchable: bool,
    /// Whether an UPDATE can invalidate the query, depending on which columns
    /// changed or on whether the row is cached.
    pub change_dependent: bool,
    /// The WHERE clause, for [`UpdateEvalStrategy::LocalEval`]; `None` when
    /// the query has none and so holds every row.
    pub compiled_where: Option<RowPredicate>,
    /// Per FROM occurrence of the relation, the query's SELECT with the row's
    /// cells in that occurrence's place. Empty when the query is no SELECT.
    pub occurrences: Vec<Vec<TemplatePiece>>,
    /// Membership of a parameter array of rows, as one statement.
    pub unnest_sql: String,
    /// Membership of inlined rows: the text before the arm's ordinal, between
    /// the ordinal and the rows, and after the rows.
    pub batch_head: String,
    pub batch_middle: String,
    pub batch_tail: String,
}

/// The update queries over one relation.
#[derive(Debug)]
pub struct UpdateQueries {
    /// Simplest first.
    pub queries: Vec<UpdateQuery>,
}

/// The conditions put on the relation named `table`, if any are.
pub open spec fn constraints_of(list: Seq<RelationConstraints>, table: Seq<char>) -> Option<
    Seq<TableConstraint>,
>
    decreases list.len(),
{
    if list.len() == 0 {
        None
    } else if list[0].table@ == table {
        Some(list[0].constraints@)
    } else {
        constraints_of(list.drop_first(), table)
    }
}

pub open spec fn constraint_column(c: TableConstraint) -> Seq<char> {
    match c {
        TableConstraint::Comparison(column, _, _) => column@,
        TableConstraint::AnyOf(column, _) => column@,
        TableConstraint::CastComparison(column, _, _, _) => column@,
    }
}

/// Whether a text value of the constrained column meets the constraint.
pub open spec fn constraint_text_holds(c: TableConstraint, text: Seq<char>) -> bool {
    match c {
        TableConstraint::Comparison(_, op, literal) => text_holds(literal@, text, op),
        TableConstraint::AnyOf(_, literals) => exists|i: int|
            0 <= i < literals@.len() && text_holds(
                (#[trigger] literals@[i])@,
                text,
                BinaryOp::Equal,
            ),
        TableConstraint::CastComparison(_, cast, op, literal) => match coerced(cast, text) {
            Some(value) => literal_holds(value, op, literal@),
            None => false,
        },
    }
}

/// Whether the row meets the constraint. NULL meets none; a column that the
/// relation or the row does not have is not held against the row.
pub open spec fn constraint_holds(
    c: TableConstraint,
    columns: Seq<ColumnMetadata>,
    row: RowView,
) -> bool {
    match named_cell(columns, row, constraint_column(c)) {
        None => true,
        Some(None) => false,
        Some(Some(text)) => constraint_text_holds(c, text),
    }
}

/// Whether the row meets every constraint of the list.
pub open spec fn all_hold(
    list: Seq<TableConstraint>,
    columns: Seq<ColumnMetadata>,
    row: RowView,
) -> bool {
    forall|i: int| 0 <= i < list.len() ==> constraint_holds(#[trigger] list[i], columns, row)
}

/// Whether the row meets every condition the query puts on its relation.
pub open spec fn row_matches(
    constraints: QueryConstraints,
    table: TableMetadata,
    row: RowView,
) -> bool {
    match constraints_of(constraints.table_constraints@, table.name@) {
        None => true,
        Some(list) => all_hold(list, table.columns@, row),
    }
}

impl QueryConstraints {
    /// No condition on any relation.
    pub fn unconstrained() -> (c: QueryConstraints)
        ensures
            c.table_constraints@.len() == 0,
            c.join_columns@.len() == 0,
    {
        QueryConstraints { table_constraints: Vec::new(), join_columns: Vec::new() }
    }

    /// Index of the conditions on the relation named `table`.
    pub fn table_find(&self, table: &String) -> (found: Option<usize>)
        ensures
            match found {
                Some(i) => i < self.table_constraints@.len() && constraints_of(
                    self.table_constraints@,
                    table@,
                ) == Some(self.table_constraints@[i as int].constraints@),
                None => constraints_of(self.table_constraints@, table@) is None,
            },
    {
        let ghost list = self.table_constraints@;
        let mut i: usize = 0;
        proof {
            assert(list.skip(0) =~= list);
        }
        while i < self.table_constraints.len()
            invariant
                i <= list.len(),
                list == self.table_constraints@,
                constraints_of(list, table@) == constraints_of(list.skip(i as int), table@),
            decreases list.len() - i,
        {
            proof {
                assert(list.skip(i as int).drop_first() =~= list.skip(i + 1));
            }
            if self.table_constraints[i].table == *table {
                return Some(i);
            }
            i = i + 1;
        }
        None
    }
}

/// Whether the query joins the relation named `table` at all.
pub open spec fn has_join_column(constraints: QueryConstraints, table: Seq<char>) -> bool {
    exists|i: int|
        0 <= i < constraints.join_columns@.len() && (
        #[trigger] constraints.join_columns@[i]).table@ == table
}

fn any_equals(literals: &Vec<LiteralValue>, text: &String) -> (any: bool)
    ensures
        any == exists|i: int|
            0 <= i < literals@.len() && text_holds(
                (#[trigger] literals@[i])@,
                text@,
                BinaryOp::Equal,
            ),
{
    let mut i: usize = 0;
    while i < literals.len()
        invariant
            i <= literals.len(),
            forall|j: int|
                0 <= j < i ==> !text_holds((#[trigger] literals@[j])@, text@, BinaryOp::Equal),
        decreases literals.len() - i,
    {
        if where_value_compare_string(&literals[i], text, BinaryOp::Equal) {
            assert(text_holds(literals@[i as int]@, text@, BinaryOp::Equal));
            return true;
        }
        i = i + 1;
    }
    false
}

fn constraints_hold(list: &Vec<TableConstraint>, table: &TableMetadata, row: &Row) -> (all: bool)
    ensures
        all == all_hold(list@, table.columns@, row.deep_view()),
{
    let mut i: usize = 0;
    while i < list.len()
        invariant
            i <= list.len(),
            forall|j: int|
                0 <= j < i ==> constraint_holds(
                    #[trigger] list@[j],
                    table.columns@,
                    row.deep_view(),
                ),
        decreases list.len() - i,
    {
        if !constraint_holds_exec(&list[i], table, row) {
            assert(!constraint_holds(list@[i as int], table.columns@, row.deep_view()));
            return false;
        }
        i = i + 1;
    }
    true
}

/// The constrained column.
pub fn constraint_column_get(c: &TableConstraint) -> (column: &String)
    ensures
        column@ == constraint_column(*c),
{
    match c {
        TableConstraint::Comparison(column, _, _) => column,
        TableConstraint::AnyOf(column, _) => column,
        TableConstraint::CastComparison(column, _, _, _) => column,
    }
}

/// Whether a text value of the constrained column meets the constraint.
pub fn constraint_text_holds_exec(c: &TableConstraint, text: &String) -> (holds: bool)
    ensures
        holds == constraint_text_holds(*c, text@),
{
    match c {
        TableConstraint::Comparison(_, op, literal) => where_value_compare_string(
            literal,
            text,
            *op,
        ),
        TableConstraint::AnyOf(_, literals) => any_equals(literals, text),
        TableConstraint::CastComparison(_, cast, op, literal) => match cast_target_coerce_text(
            *cast,
            text,
        ) {
            Some(value) => literal_compare(&value, *op, literal),
            None => false,
        },
    }
}

fn constraint_holds_exec(c: &TableConstraint, table: &TableMetadata, row: &Row) -> (holds: bool)
    ensures
        holds == constraint_holds(*c, table.columns@, row.deep_view()),
{
    match table.named_cell_get(row, constraint_column_get(c)) {
        None => true,
        Some(None) => false,
        Some(Some(text)) => constraint_text_holds_exec(c, text),
    }
}

/// Whether the row meets every condition the query puts on its relation. A
/// relation without conditions is met by every row.
pub fn row_constraints_match(
    constraints: &QueryConstraints,
    table: &TableMetadata,
    row: &Row,
) -> (matches: bool)
    ensures
        matches == row_matches(*constraints, *table, row.deep_view()),
{
    match constraints.table_find(&table.name) {
        None => true,
        Some(at) => constraints_hold(&constraints.table_constraints[at].constraints, table, row),
    }
}

/// Truth of a predicate on a row: `None` where SQL says unknown.
pub open spec fn predicate_truth(p: RowPredicate, row: RowView) -> Option<bool>
    decreases p,
{
    match p {
        RowPredicate::Comparison(column, op, literal) => match cell_at(row, column as int) {
            Some(Some(text)) => if literal is Null {
                None
            } else {
                Some(text_holds(literal@, text, op))
            },
            _ => None,
        },
        RowPredicate::IsNull(column) => Some(!(cell_at(row, column as int) matches Some(Some(_)))),
        RowPredicate::Not(inner) => match predicate_truth(*inner, row) {
            Some(b) => Some(!b),
            None => None,
        },
        RowPredicate::And(a, b) => match (predicate_truth(*a, row), predicate_truth(*b, row)) {
            (Some(false), _) => Some(false),
            (_, Some(false)) => Some(false),
            (Some(true), Some(true)) => Some(true),
            _ => None,
        },
        RowPredicate::Or(a, b) => match (predicate_truth(*a, row), predicate_truth(*b, row)) {
            (Some(true), _) => Some(true),
            (_, Some(true)) => Some(true),
            (Some(false), Some(false)) => Some(false),
            _ => None,
        },
    }
}

impl RowPredicate {
    /// Truth of the predicate on a row: `None` where SQL says unknown.
    pub fn truth(&self, row: &Row) -> (t: Option<bool>)
        ensures
            t == predicate_truth(*self, row.deep_view()),
        decreases self,
    {
        match self {
            RowPredicate::Comparison(column, op, literal) => match row_get(row, *column) {
                Some(Some(text)) => match literal {
                    LiteralValue::Null => None,
                    _ => Some(where_value_compare_string(literal, text, *op)),
                },
                _ => None,
            },
            RowPredicate::IsNull(column) => match row_get(row, *column) {
                Some(Some(_)) => Some(false),
                _ => Some(true),
            },
            RowPredicate::Not(inner) => match inner.truth(row) {
                Some(b) => Some(!b),
                None => None,
            },
            RowPredicate::And(a, b) => match (a.truth(row), b.truth(row)) {
                (Some(false), _) => Some(false),
                (_, Some(false)) => Some(false),
                (Some(true), Some(true)) => Some(true),
                _ => None,
            },
            RowPredicate::Or(a, b) => match (a.truth(row), b.truth(row)) {
                (Some(true), _) => Some(true),
                (_, Some(true)) => Some(true),
                (Some(false), Some(false)) => Some(false),
                _ => None,
            },
        }
    }
}

/// Whether the query's WHERE clause accepts the row; a query without one
/// accepts every row.
pub open spec fn matches_locally(q: UpdateQuery, row: RowView) -> bool {
    match q.compiled_where {
        None => true,
        Some(p) => predicate_truth(p, row) == Some(true),
    }
}

/// Evaluate a locally evaluated query's WHERE clause on a row.
pub fn update_query_matches_locally(q: &UpdateQuery, row: &Row) -> (matches: bool)
    ensures
        matches == matches_locally(*q, row.deep_view()),
{
    match &q.compiled_where {
        None => true,
        Some(p) => match p.truth(row) {
            Some(true) => true,
            _ => false,
        },
    }
}

impl UpdateQueries {
    /// Whether some query over the relation is change-dependent.
    pub open spec fn needs_change_eval_spec(&self) -> bool {
        exists|i: int| 0 <= i < self.queries@.len() && (#[trigger] self.queries@[i]).change_dependent
    }

    /// Whether an UPDATE of the relation has to look at what changed.
    pub fn needs_change_eval(&self) -> (needed: bool)
        ensures
            needed == self.needs_change_eval_spec(),
    {
        let mut i: usize = 0;
        while i < self.queries.len()
            invariant
                i <= self.queries.len(),
                forall|j: int| 0 <= j < i ==> !(#[trigger] self.queries@[j]).change_dependent,
            decreases self.queries.len() - i,
        {
            if self.queries[i].change_dependent {
                assert(self.queries@[i as int].change_dependent);
                return true;
            }
            i = i + 1;
        }
        false
    }
}

} // verus!
