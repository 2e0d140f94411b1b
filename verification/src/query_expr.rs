//! Queries by their clauses, and how they are written as SQL.
use vstd::prelude::*;
use vstd::string::*;

use crate::text::joined;
use crate::text::list_append;

verus! {

/// A SELECT. Each clause is a list of SQL expressions.
pub struct SelectNode {
    pub distinct: bool,
    pub columns: Vec<String>,
    pub from: Vec<String>,
    pub where_clause: Option<String>,
    pub group_by: Vec<String>,
    pub having: Option<String>,
}

/// How two queries are combined.
#[derive(Clone, Copy, Debug, PartialEq, Eq, Structural)]
pub enum SetOperator {
    Union,
    Intersect,
    Except,
}

/// What a query's rows come from.
pub enum QueryBody {
    Select(SelectNode),
    /// Rows written out, each as a tuple.
    Values(Vec<String>),
    SetOp { op: SetOperator, all: bool, left: Box<QueryExpr>, right: Box<QueryExpr> },
}

/// A query.
pub struct QueryExpr {
    pub body: QueryBody,
    pub order_by: Vec<String>,
    pub limit: Option<String>,
}

/// A clause with a list, which is left out when the list is empty.
pub open spec fn list_clause(keyword: Seq<char>, items: Seq<Seq<char>>) -> Seq<char> {
    if items.len() == 0 {
        Seq::empty()
    } else {
        keyword + joined(items, ", "@)
    }
}

/// A clause with one expression, which may be missing.
pub open spec fn option_clause(keyword: Seq<char>, item: Option<Seq<char>>) -> Seq<char> {
    match item {
        Some(text) => keyword + text,
        None => Seq::empty(),
    }
}

/// The mathematical value of a [`SelectNode`].
pub struct SelectView {
    pub distinct: bool,
    pub columns: Seq<Seq<char>>,
    pub from: Seq<Seq<char>>,
    pub where_clause: Option<Seq<char>>,
    pub group_by: Seq<Seq<char>>,
    pub having: Option<Seq<char>>,
}

impl View for SelectNode {
    type V = SelectView;

    open spec fn view(&self) -> SelectView {
        SelectView {
            distinct: self.distinct,
            columns: self.columns.deep_view(),
            from: self.from.deep_view(),
            where_clause: self.where_clause.deep_view(),
            group_by: self.group_by.deep_view(),
            having: self.having.deep_view(),
        }
    }
}

/// A SELECT as SQL.
pub open spec fn select_text(s: SelectView) -> Seq<char> {
    "SELECT "@ + (if s.distinct {
        "DISTINCT "@
    } else {
        Seq::empty()
    }) + joined(s.columns, ", "@) + list_clause(" FROM "@, s.from) + option_clause(
        " WHERE "@,
        s.where_clause,
    ) + list_clause(" GROUP BY "@, s.group_by) + option_clause(" HAVING "@, s.having)
}

/// How a combination is written.
pub open spec fn operator_text(op: SetOperator, all: bool) -> Seq<char> {
    (match op {
        SetOperator::Union => " UNION "@,
        SetOperator::Intersect => " INTERSECT "@,
        SetOperator::Except => " EXCEPT "@,
    }) + (if all {
        "ALL "@
    } else {
        Seq::empty()
    })
}

/// What a query's rows come from, as SQL.
pub open spec fn body_text(b: QueryBody) -> Seq<char>
    decreases b,
{
    match b {
        QueryBody::Select(s) => select_text(s@),
        QueryBody::Values(rows) => "VALUES "@ + joined(rows.deep_view(), ", "@),
        QueryBody::SetOp { op, all, left, right } => query_text(*left) + operator_text(op, all)
            + query_text(*right),
    }
}

/// A query as SQL.
pub open spec fn query_text(q: QueryExpr) -> Seq<char>
    decreases q,
{
    body_text(q.body) + list_clause(" ORDER BY "@, q.order_by.deep_view()) + option_clause(
        " LIMIT "@,
        q.limit.deep_view(),
    )
}

fn list_clause_append(buf: &mut String, keyword: &str, items: &Vec<String>)
    ensures
        final(buf)@ == old(buf)@ + list_clause(keyword@, items.deep_view()),
{
    let ghost start = buf@;
    if items.len() > 0 {
        buf.append(keyword);
        list_append(buf, items, ", ");
        proof {
            assert(buf@ =~= start + (keyword@ + joined(items.deep_view(), ", "@)));
        }
    } else {
        proof {
            assert(buf@ =~= start + Seq::<char>::empty());
        }
    }
}

fn option_clause_append(buf: &mut String, keyword: &str, item: &Option<String>)
    ensures
        final(buf)@ == old(buf)@ + option_clause(keyword@, item.deep_view()),
{
    let ghost start = buf@;
    match item {
        Some(text) => {
            buf.append(keyword);
            buf.append(text.as_str());
            proof {
                assert(buf@ =~= start + (keyword@ + text@));
            }
        },
        None => {
            proof {
                assert(buf@ =~= start + Seq::<char>::empty());
            }
        },
    }
}

impl SelectNode {
    /// Append the SELECT as SQL.
    pub fn deparse(&self, buf: &mut String)
        ensures
            final(buf)@ == old(buf)@ + select_text(self@),
    {
        let ghost start = buf@;
        buf.append("SELECT ");
        if self.distinct {
            buf.append("DISTINCT ");
        }
        list_append(buf, &self.columns, ", ");
        list_clause_append(buf, " FROM ", &self.from);
        option_clause_append(buf, " WHERE ", &self.where_clause);
        list_clause_append(buf, " GROUP BY ", &self.group_by);
        option_clause_append(buf, " HAVING ", &self.having);
        proof {
            assert(buf@ =~= start + select_text(self@));
        }
    }
}

impl QueryBody {
    /// Append what the query's rows come from as SQL.
    pub fn deparse(&self, buf: &mut String)
        ensures
            final(buf)@ == old(buf)@ + body_text(*self),
        decreases self,
    {
        let ghost start = buf@;
        match self {
            QueryBody::Select(s) => {
                s.deparse(buf);
            },
            QueryBody::Values(rows) => {
                buf.append("VALUES ");
                list_append(buf, rows, ", ");
                proof {
                    assert(buf@ =~= start + body_text(*self));
                }
            },
            QueryBody::SetOp { op, all, left, right } => {
                left.deparse(buf);
                match op {
                    SetOperator::Union => {
                        buf.append(" UNION ");
                    },
                    SetOperator::Intersect => {
                        buf.append(" INTERSECT ");
                    },
                    SetOperator::Except => {
                        buf.append(" EXCEPT ");
                    },
                }
                if *all {
                    buf.append("ALL ");
                }
                right.deparse(buf);
                proof {
                    assert(buf@ =~= start + body_text(*self));
                }
            },
        }
    }
}

impl QueryExpr {
    /// Append the query as SQL.
    pub fn deparse(&self, buf: &mut String)
        ensures
            final(buf)@ == old(buf)@ + query_text(*self),
        decreases self,
    {
        let ghost start = buf@;
        self.body.deparse(buf);
        list_clause_append(buf, " ORDER BY ", &self.order_by);
        option_clause_append(buf, " LIMIT ", &self.limit);
        proof {
            assert(buf@ =~= start + query_text(*self));
        }
    }
}

} // verus!
