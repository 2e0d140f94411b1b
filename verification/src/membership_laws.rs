//! What holds of the evaluation of a row's membership, from its beginning to
//! the listing of its event's steps.
use vstd::prelude::*;

use crate::cache::dirty_eval_required;
use crate::cache::CacheView;
use crate::catalog::RowView;
use crate::catalog::TableMetadata;
use crate::dispatch::by_dirtyable;
use crate::dispatch::core_dirtied;
use crate::dispatch::is_evaluable;
use crate::dispatch::is_sure_hit;
use crate::dispatch::is_unasked;
use crate::dispatch::membership_begun;
use crate::dispatch::membership_hits;
use crate::dispatch::membership_plan;
use crate::dispatch::relation_queries;
use crate::dispatch::sure_hits;
use crate::dispatch::unasked;
use crate::dispatch::EvalView;
use crate::query::matches_locally;
use crate::query::UpdateEvalStrategy;
use crate::query::UpdateQuery;
use crate::replay::asked_chunk;
use crate::replay::eval_begun;
use crate::replay::matching;
use crate::replay::replay_answered;
use crate::replay::replay_ask;
use crate::replay::replay_step;
use crate::replay::ReplayAsk;
use crate::replay::ReplayReplyView;
use crate::replay::ReplayStage;
use crate::replay::ReplayView;
use crate::segment::batch_covers;
use crate::segment::batch_hit;
use crate::segment::BatchView;
use crate::writer_core::CoreView;

verus! {

/// The queries that a membership question is about.
pub open spec fn asked_now(r: ReplayView) -> Seq<u64> {
    if r.stage == ReplayStage::Rest {
        asked_chunk(r.rest, r.asked_from)
    } else {
        asked_chunk(r.fresh, r.asked_from)
    }
}

/// Where a replay and the writer's state are from one moment of an evaluation
/// to the next: after an answer, or after a step that asks nothing.
pub open spec fn evaluation_goes_on(
    from: (ReplayView, CoreView),
    answer: Option<Seq<bool>>,
    to: (ReplayView, CoreView),
) -> bool {
    &&& from.0.stage == ReplayStage::Fresh || from.0.stage == ReplayStage::Rest
    &&& match answer {
        None => {
            let o = replay_step(from.0, from.1);
            replay_ask(from.0, from.1) == ReplayAsk::Continue && to == (o.replay, o.core)
        },
        Some(matches) => {
            let o = replay_answered(from.0, from.1, ReplayReplyView::Matches(matches));
            replay_ask(from.0, from.1) is Membership && to == (o.replay, o.core)
        },
    }
}

/// The course of an evaluation that begins with the given plan, and the answers
/// on the way.
pub open spec fn is_evaluation(
    r: ReplayView,
    plan: EvalView,
    c: CoreView,
    moments: Seq<(ReplayView, CoreView)>,
    answers: Seq<Option<Seq<bool>>>,
) -> bool {
    &&& moments.len() == answers.len() + 1
    &&& moments[0] == (eval_begun(r, plan), c)
    &&& forall|i: int|
        0 <= i < answers.len() ==> evaluation_goes_on(
            #[trigger] moments[i],
            answers[i],
            moments[i + 1],
        )
}

/// Whether an answer says of an asked query that it holds the row.
pub open spec fn says_yes(r: ReplayView, answer: Option<Seq<bool>>) -> bool {
    answer matches Some(matches) && if r.stage == ReplayStage::Rest {
        matches.contains(true)
    } else {
        exists|i: int|
            0 <= i < asked_now(r).len() && i < matches.len() && #[trigger] matches[i]
    }
}

/// Whether some answer said of an asked query that it holds the row.
pub open spec fn some_yes(
    moments: Seq<(ReplayView, CoreView)>,
    answers: Seq<Option<Seq<bool>>>,
) -> bool {
    exists|k: int|
        0 <= k < answers.len() && says_yes(#[trigger] moments[k].0, answers[k])
}

proof fn lemma_matching_some(asked: Seq<u64>, matches: Seq<bool>)
    ensures
        matching(asked, matches).len() > 0 <==> exists|i: int|
            0 <= i < asked.len() && i < matches.len() && #[trigger] matches[i],
    decreases asked.len(),
{
    if asked.len() > 0 {
        lemma_matching_some(asked.drop_last(), matches);
        let last = asked.len() - 1;
        if exists|i: int| 0 <= i < asked.len() && i < matches.len() && #[trigger] matches[i] {
            let i = choose|i: int|
                0 <= i < asked.len() && i < matches.len() && #[trigger] matches[i];
            if i < last {
                assert(0 <= i < asked.drop_last().len() && i < matches.len() && matches[i]);
            }
        }
    }
}

/// Where one moment of an evaluation leads.
proof fn lemma_evaluation_goes_on(
    from: (ReplayView, CoreView),
    answer: Option<Seq<bool>>,
    to: (ReplayView, CoreView),
)
    requires
        evaluation_goes_on(from, answer, to),
    ensures
        ({
            let (r, c) = from;
            if r.stage == ReplayStage::Fresh {
                match answer {
                    Some(matches) => r.asked_from < r.fresh.len() && to == (
                        ReplayView {
                            hits: r.hits + matching(asked_now(r), matches),
                            asked_from: r.asked_from + asked_now(r).len(),
                            ..r
                        },
                        c,
                    ),
                    None => r.asked_from >= r.fresh.len() && to == (
                        ReplayView {
                            matched: r.matched || r.hits.len() > 0,
                            asked_from: 0,
                            stage: ReplayStage::Rest,
                            ..r
                        },
                        core_dirtied(c, r.hits),
                    ),
                }
            } else {
                &&& r.stage == ReplayStage::Rest
                &&& match answer {
                    Some(matches) => !r.matched && r.asked_from < r.rest.len() && to == (
                        ReplayView {
                            matched: matches.contains(true),
                            asked_from: r.asked_from + asked_now(r).len(),
                            ..r
                        },
                        c,
                    ),
                    None => (r.matched || r.asked_from >= r.rest.len()) && to == (
                        ReplayView { stage: ReplayStage::Plan, ..r },
                        c,
                    ),
                }
            }
        }),
{
    reveal(replay_step);
    reveal(replay_answered);
}

/// When the steps of an event are listed, its row counts as held exactly if a
/// query was known to hold it at the beginning, or an asked query was answered
/// to hold it.
pub proof fn row_is_held_iff_known_or_answered(
    r: ReplayView,
    plan: EvalView,
    c: CoreView,
    moments: Seq<(ReplayView, CoreView)>,
    answers: Seq<Option<Seq<bool>>>,
)
    requires
        is_evaluation(r, plan, c, moments, answers),
    ensures
        moments.last().0.stage == ReplayStage::Plan ==> moments.last().0.matched == (plan.matched
            || some_yes(moments, answers)),
{
    lemma_known_or_answered(r, plan, c, moments, answers);
}

proof fn lemma_short_evaluation(
    r: ReplayView,
    plan: EvalView,
    c: CoreView,
    moments: Seq<(ReplayView, CoreView)>,
    answers: Seq<Option<Seq<bool>>>,
)
    requires
        is_evaluation(r, plan, c, moments, answers),
        answers.len() > 0,
    ensures
        is_evaluation(r, plan, c, moments.drop_last(), answers.drop_last()),
        evaluation_goes_on(moments.drop_last().last(), answers.last(), moments.last()),
        some_yes(moments, answers) <==> some_yes(moments.drop_last(), answers.drop_last())
            || says_yes(moments.drop_last().last().0, answers.last()),
{
    let (m, a) = (moments.drop_last(), answers.drop_last());
    let n = answers.len() - 1;
    assert forall|i: int| 0 <= i < a.len() implies evaluation_goes_on(
        #[trigger] m[i],
        a[i],
        m[i + 1],
    ) by {
        assert(evaluation_goes_on(moments[i], answers[i], moments[i + 1]));
    }
    assert(m.last() == moments[n]);
    assert(evaluation_goes_on(moments[n], answers[n], moments[n + 1]));
    if some_yes(moments, answers) {
        let k = choose|k: int|
            0 <= k < answers.len() && says_yes(#[trigger] moments[k].0, answers[k]);
        if k < n {
            assert(says_yes(m[k].0, a[k]));
        }
    }
    if some_yes(m, a) {
        let k = choose|k: int| 0 <= k < a.len() && says_yes(#[trigger] m[k].0, a[k]);
        assert(says_yes(moments[k].0, answers[k]));
    }
    if says_yes(m.last().0, answers.last()) {
        assert(says_yes(moments[n].0, answers[n]));
    }
}

proof fn lemma_known_or_answered(
    r: ReplayView,
    plan: EvalView,
    c: CoreView,
    moments: Seq<(ReplayView, CoreView)>,
    answers: Seq<Option<Seq<bool>>>,
)
    requires
        is_evaluation(r, plan, c, moments, answers),
    ensures
        ({
            let last = moments.last().0;
            let yes = some_yes(moments, answers);
            match last.stage {
                ReplayStage::Fresh => {
                    &&& last.matched == plan.matched
                    &&& last.hits.len() > 0 <==> yes
                },
                ReplayStage::Rest => last.matched == (plan.matched || yes),
                ReplayStage::Plan => last.matched == (plan.matched || yes),
                _ => false,
            }
        }),
    decreases answers.len(),
{
    if answers.len() > 0 {
        lemma_short_evaluation(r, plan, c, moments, answers);
        lemma_known_or_answered(r, plan, c, moments.drop_last(), answers.drop_last());
        let from = moments.drop_last().last().0;
        lemma_evaluation_goes_on(moments.drop_last().last(), answers.last(), moments.last());
        if let Some(matches) = answers.last() {
            lemma_matching_some(asked_now(from), matches);
        }
    }
}

/// The queries that hold the row.
pub open spec fn holding(fps: Seq<u64>, holds: spec_fn(u64) -> bool) -> Seq<u64>
    decreases fps.len(),
{
    if fps.len() == 0 {
        fps
    } else {
        let rest = holding(fps.drop_last(), holds);
        if holds(fps.last()) {
            rest.push(fps.last())
        } else {
            rest
        }
    }
}

/// Whether some query of a list holds the row.
pub open spec fn one_holds(fps: Seq<u64>, holds: spec_fn(u64) -> bool) -> bool {
    exists|i: int| 0 <= i < fps.len() && holds(#[trigger] fps[i])
}

/// Whether an answer is true: of each asked query, or of all of them together.
pub open spec fn is_true_answer(
    r: ReplayView,
    answer: Option<Seq<bool>>,
    holds: spec_fn(u64) -> bool,
) -> bool {
    answer matches Some(matches) ==> if r.stage == ReplayStage::Rest {
        matches.contains(true) == one_holds(asked_now(r), holds)
    } else {
        &&& matches.len() == asked_now(r).len()
        &&& forall|i: int|
            0 <= i < matches.len() ==> #[trigger] matches[i] == holds(asked_now(r)[i])
    }
}

/// Whether all answers of an evaluation are true.
pub open spec fn all_true_answers(
    moments: Seq<(ReplayView, CoreView)>,
    answers: Seq<Option<Seq<bool>>>,
    holds: spec_fn(u64) -> bool,
) -> bool {
    forall|k: int|
        0 <= k < answers.len() ==> is_true_answer(#[trigger] moments[k].0, answers[k], holds)
}

proof fn lemma_holding(fps: Seq<u64>, holds: spec_fn(u64) -> bool)
    ensures
        holding(fps, holds).len() > 0 <==> one_holds(fps, holds),
    decreases fps.len(),
{
    if fps.len() > 0 {
        let short = fps.drop_last();
        lemma_holding(short, holds);
        if one_holds(fps, holds) {
            let i = choose|i: int| 0 <= i < fps.len() && holds(#[trigger] fps[i]);
            if i < short.len() {
                assert(holds(short[i]));
            }
        }
        if one_holds(short, holds) {
            let i = choose|i: int| 0 <= i < short.len() && holds(#[trigger] short[i]);
            assert(holds(fps[i]));
        }
        if holds(fps.last()) {
            assert(holds(fps[fps.len() - 1]));
        }
    }
}

proof fn lemma_holding_concat(a: Seq<u64>, b: Seq<u64>, holds: spec_fn(u64) -> bool)
    ensures
        holding(a + b, holds) == holding(a, holds) + holding(b, holds),
        one_holds(a + b, holds) == (one_holds(a, holds) || one_holds(b, holds)),
    decreases b.len(),
{
    if b.len() == 0 {
        assert(a + b =~= a);
        assert(holding(a, holds) + b =~= holding(a, holds));
    } else {
        assert((a + b).drop_last() =~= a + b.drop_last());
        lemma_holding_concat(a, b.drop_last(), holds);
        assert(holding(a + b, holds) =~= holding(a, holds) + holding(b, holds));
    }
    lemma_holding(a, holds);
    lemma_holding(b, holds);
    lemma_holding(a + b, holds);
}

proof fn lemma_matching_true(asked: Seq<u64>, matches: Seq<bool>, holds: spec_fn(u64) -> bool)
    requires
        asked.len() <= matches.len(),
        forall|i: int| 0 <= i < asked.len() ==> #[trigger] matches[i] == holds(asked[i]),
    ensures
        matching(asked, matches) == holding(asked, holds),
    decreases asked.len(),
{
    if asked.len() > 0 {
        assert forall|i: int| 0 <= i < asked.drop_last().len() implies #[trigger] matches[i]
            == holds(asked.drop_last()[i]) by {
            assert(matches[i] == holds(asked[i]));
        }
        lemma_matching_true(asked.drop_last(), matches, holds);
        assert(matches[asked.len() - 1] == holds(asked[asked.len() - 1]));
    }
}

proof fn lemma_asked_so_far(fps: Seq<u64>, from: int, holds: spec_fn(u64) -> bool)
    requires
        0 <= from <= fps.len(),
    ensures
        ({
            let chunk = asked_chunk(fps, from);
            &&& from + chunk.len() <= fps.len()
            &&& holding(fps.take(from + chunk.len()), holds) == holding(fps.take(from), holds)
                + holding(chunk, holds)
            &&& one_holds(fps.take(from + chunk.len()), holds) == (one_holds(
                fps.take(from),
                holds,
            ) || one_holds(chunk, holds))
        }),
{
    let chunk = asked_chunk(fps, from);
    assert(fps.take(from + chunk.len()) =~= fps.take(from) + chunk);
    lemma_holding_concat(fps.take(from), chunk, holds);
}

proof fn lemma_one_holds_take(fps: Seq<u64>, n: int, holds: spec_fn(u64) -> bool)
    requires
        0 <= n <= fps.len(),
        one_holds(fps.take(n), holds),
    ensures
        one_holds(fps, holds),
{
    let i = choose|i: int| 0 <= i < n && holds(#[trigger] fps.take(n)[i]);
    assert(holds(fps[i]));
}

proof fn lemma_true_evaluation(
    r: ReplayView,
    plan: EvalView,
    c: CoreView,
    moments: Seq<(ReplayView, CoreView)>,
    answers: Seq<Option<Seq<bool>>>,
    holds: spec_fn(u64) -> bool,
)
    requires
        is_evaluation(r, plan, c, moments, answers),
        all_true_answers(moments, answers, holds),
    ensures
        ({
            let (last, core) = moments.last();
            let known = plan.matched || one_holds(plan.fresh, holds);
            let dirtied = core_dirtied(c, holding(plan.fresh, holds));
            &&& last.fresh == plan.fresh
            &&& last.rest == plan.rest
            &&& match last.stage {
                ReplayStage::Fresh => {
                    &&& last.matched == plan.matched
                    &&& 0 <= last.asked_from <= plan.fresh.len()
                    &&& last.hits == holding(plan.fresh.take(last.asked_from), holds)
                    &&& core == c
                },
                ReplayStage::Rest => {
                    &&& 0 <= last.asked_from <= plan.rest.len()
                    &&& last.matched == (known || one_holds(
                        plan.rest.take(last.asked_from),
                        holds,
                    ))
                    &&& core == dirtied
                },
                ReplayStage::Plan => {
                    &&& last.matched == (known || one_holds(plan.rest, holds))
                    &&& core == dirtied
                },
                _ => false,
            }
        }),
    decreases answers.len(),
{
    if answers.len() == 0 {
        assert(plan.fresh.take(0) =~= Seq::<u64>::empty());
    } else {
        lemma_short_evaluation(r, plan, c, moments, answers);
        let (m, a) = (moments.drop_last(), answers.drop_last());
        assert forall|k: int| 0 <= k < a.len() implies is_true_answer(
            #[trigger] m[k].0,
            a[k],
            holds,
        ) by {
            assert(is_true_answer(moments[k].0, answers[k], holds));
        }
        lemma_true_evaluation(r, plan, c, m, a, holds);
        let (from, _) = m.last();
        assert(is_true_answer(moments[answers.len() - 1].0, answers.last(), holds));
        lemma_evaluation_goes_on(m.last(), answers.last(), moments.last());
        if from.stage == ReplayStage::Fresh {
            match answers.last() {
                Some(matches) => {
                    lemma_asked_so_far(plan.fresh, from.asked_from, holds);
                    lemma_matching_true(asked_now(from), matches, holds);
                },
                None => {
                    assert(plan.fresh.take(from.asked_from) =~= plan.fresh);
                    lemma_holding(plan.fresh, holds);
                    assert(plan.rest.take(0) =~= Seq::<u64>::empty());
                    assert(!one_holds(plan.rest.take(0), holds));
                },
            }
        } else {
            match answers.last() {
                Some(matches) => {
                    lemma_asked_so_far(plan.rest, from.asked_from, holds);
                },
                None => {
                    if one_holds(plan.rest.take(from.asked_from), holds) {
                        lemma_one_holds_take(plan.rest, from.asked_from, holds);
                    }
                    if !from.matched {
                        assert(plan.rest.take(from.asked_from) =~= plan.rest);
                    }
                },
            }
        }
    }
}

/// Whether a query holds the row: it is known to, or the cache database has to
/// say so, and it does.
pub open spec fn holds_row(
    q: UpdateQuery,
    m: Map<u32, BatchView>,
    oid: u32,
    idx: usize,
    row: RowView,
    holds: spec_fn(u64) -> bool,
) -> bool {
    is_sure_hit(q, m, oid, idx, row) || is_unasked(q, m, oid, idx) && holds(q.fingerprint)
}

/// Whether some query that is not flagged for invalidation, and whose
/// conditions on the relation the row meets, holds the row.
pub open spec fn some_query_holds(
    queries: Seq<UpdateQuery>,
    table: TableMetadata,
    m: Map<u32, BatchView>,
    oid: u32,
    idx: usize,
    row: RowView,
    invalidations: Seq<u64>,
    holds: spec_fn(u64) -> bool,
) -> bool {
    exists|i: int|
        0 <= i < queries.len() && is_evaluable(#[trigger] queries[i], table, row, invalidations)
            && holds_row(queries[i], m, oid, idx, row, holds)
}

proof fn lemma_some_query_holds(
    queries: Seq<UpdateQuery>,
    table: TableMetadata,
    m: Map<u32, BatchView>,
    oid: u32,
    idx: usize,
    row: RowView,
    invalidations: Seq<u64>,
    holds: spec_fn(u64) -> bool,
)
    ensures
        some_query_holds(queries, table, m, oid, idx, row, invalidations, holds) == (sure_hits(
            queries,
            table,
            m,
            oid,
            idx,
            row,
            invalidations,
        ).len() > 0 || one_holds(
            unasked(queries, table, m, oid, idx, row, invalidations),
            holds,
        )),
    decreases queries.len(),
{
    if queries.len() > 0 {
        let short = queries.drop_last();
        let q = queries.last();
        lemma_some_query_holds(short, table, m, oid, idx, row, invalidations, holds);
        let before = unasked(short, table, m, oid, idx, row, invalidations);
        lemma_holding(before, holds);
        lemma_holding(before.push(q.fingerprint), holds);
        assert(before.push(q.fingerprint).drop_last() =~= before);
        if some_query_holds(short, table, m, oid, idx, row, invalidations, holds) {
            let i = choose|i: int|
                0 <= i < short.len() && is_evaluable(
                    #[trigger] short[i],
                    table,
                    row,
                    invalidations,
                ) && holds_row(short[i], m, oid, idx, row, holds);
            assert(queries[i] == short[i]);
            assert(is_evaluable(queries[i], table, row, invalidations));
        }
        if some_query_holds(queries, table, m, oid, idx, row, invalidations, holds) {
            let i = choose|i: int|
                0 <= i < queries.len() && is_evaluable(
                    #[trigger] queries[i],
                    table,
                    row,
                    invalidations,
                ) && holds_row(queries[i], m, oid, idx, row, holds);
            if i < short.len() {
                assert(short[i] == queries[i]);
                assert(is_evaluable(short[i], table, row, invalidations));
            }
        }
        if is_evaluable(q, table, row, invalidations) && holds_row(q, m, oid, idx, row, holds) {
            assert(queries[queries.len() - 1] == q);
            assert(is_evaluable(queries[queries.len() - 1], table, row, invalidations));
        }
    }
}

proof fn lemma_by_dirtyable(fps: Seq<u64>, c: CacheView, holds: spec_fn(u64) -> bool)
    ensures
        one_holds(fps, holds) == (one_holds(by_dirtyable(fps, c, true), holds) || one_holds(
            by_dirtyable(fps, c, false),
            holds,
        )),
    decreases fps.len(),
{
    if fps.len() > 0 {
        let short = fps.drop_last();
        lemma_by_dirtyable(short, c, holds);
        let dirtyable = dirty_eval_required(c.entries, fps.last());
        let part = by_dirtyable(short, c, dirtyable);
        lemma_holding(fps, holds);
        lemma_holding(short, holds);
        lemma_holding(part, holds);
        lemma_holding(part.push(fps.last()), holds);
        assert(part.push(fps.last()).drop_last() =~= part);
    }
}

/// When the steps of an event are listed, its row counts as held exactly if
/// some query over its relation holds it: one that is not flagged for
/// invalidation, and that was evaluated here, or whose answer for the segment
/// says so, or of which the cache database said so. And the materialized
/// results that can be dirtied are dirtied of every asked query that holds it.
pub proof fn row_is_held_iff_a_query_holds_it(
    r: ReplayView,
    c: CoreView,
    m: Map<u32, BatchView>,
    idx: usize,
    oid: u32,
    row: RowView,
    moments: Seq<(ReplayView, CoreView)>,
    answers: Seq<Option<Seq<bool>>>,
    holds: spec_fn(u64) -> bool,
)
    requires
        is_evaluation(
            r,
            membership_plan(c, m, idx, oid, row),
            membership_begun(c, m, idx, oid, row),
            moments,
            answers,
        ),
        all_true_answers(moments, answers, holds),
        moments.last().0.stage == ReplayStage::Plan,
    ensures
        moments.last().0.matched == some_query_holds(
            relation_queries(c.cache, oid),
            c.cache.tables[oid],
            m,
            oid,
            idx,
            row,
            c.frame.invalidations,
            holds,
        ),
        moments.last().1 == core_dirtied(
            membership_begun(c, m, idx, oid, row),
            holding(membership_plan(c, m, idx, oid, row).fresh, holds),
        ),
{
    let plan = membership_plan(c, m, idx, oid, row);
    let queries = relation_queries(c.cache, oid);
    let table = c.cache.tables[oid];
    let invalidations = c.frame.invalidations;
    lemma_true_evaluation(
        r,
        plan,
        membership_begun(c, m, idx, oid, row),
        moments,
        answers,
        holds,
    );
    lemma_some_query_holds(queries, table, m, oid, idx, row, invalidations, holds);
    if queries.len() > 0 {
        let after = core_dirtied(c, membership_hits(c, m, idx, oid, row)).cache;
        lemma_by_dirtyable(
            unasked(queries, table, m, oid, idx, row, invalidations),
            after,
            holds,
        );
    }
}

/// Where the segment's answers are true, a query that is evaluated here holds the
/// row exactly if it accepts it, and any other exactly if it does in truth:
/// whether it was asked with the segment or is asked alone.
pub proof fn query_holds_the_row_it_is_true_of(
    q: UpdateQuery,
    m: Map<u32, BatchView>,
    oid: u32,
    idx: usize,
    row: RowView,
    holds: spec_fn(u64) -> bool,
)
    requires
        batch_covers(m, oid, idx, q.fingerprint) ==> batch_hit(m, oid, idx, q.fingerprint)
            == holds(q.fingerprint),
    ensures
        holds_row(q, m, oid, idx, row, holds) == (match q.eval_strategy {
            UpdateEvalStrategy::LocalEval => matches_locally(q, row),
            UpdateEvalStrategy::PgEval => holds(q.fingerprint),
        }),
{
}

} // verus!
