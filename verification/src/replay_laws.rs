//! What holds of every replay.
use vstd::prelude::*;

use crate::event::EventView;
use crate::frame::FrameState;
use crate::order::lower;
use crate::order::lower_at;
use crate::replay::asked_chunk;
use crate::replay::lemma_segment_end;
use crate::replay::event_started;
use crate::replay::repair_group;
use crate::replay::repaired;
use crate::replay::replay_answered;
use crate::replay::replay_ask;
use crate::replay::replay_step;
use crate::replay::replay_wf;
use crate::replay::matches_taken;
use crate::replay::statement_failed;
use crate::replay::slots_by_relation;
use crate::replay::ReplayAsk;
use crate::replay::ReplayReplyView;
use crate::replay::ReplayStage;
use crate::replay::ReplayView;
use crate::segment_eval::chunk_of;
use crate::segment_eval::part_queries;
use crate::segment_eval::query_chunk_of;
use crate::segment_eval::segment_answered;
use crate::segment_eval::segment_ask;
use crate::segment_eval::segment_step;
use crate::segment_eval::segment_wf;
use crate::segment_eval::ReplyView;
use crate::segment_eval::SegmentAsk;
use crate::segment_eval::SegmentStage;
use crate::segment_eval::SegmentView;
use crate::toast::awaits_repair;
use crate::toast::lookup_images;
use crate::toast::pass_two_settles_its_slots;
use crate::toast::PassTwoView;
use crate::writer_core::CoreView;

verus! {

/// Whether a replay kept to the order of its events: it went to the next one at
/// most, and once the repair is over the events are as they were.
pub open spec fn order_kept(r: ReplayView, after: ReplayView) -> bool {
    &&& r.next <= after.next <= r.next + 1
    &&& r.stage != ReplayStage::Repair ==> after.events == r.events
    &&& after.events.len() == r.events.len()
}

proof fn lemma_repair_keeps_order(
    r: ReplayView,
    c: CoreView,
    images: Option<Seq<crate::toast::LookupView>>,
)
    requires
        r.stage == ReplayStage::Repair,
        r.pending.len() > 0,
    ensures
        order_kept(r, repaired(r, c, images).replay),
{
    let start = PassTwoView { toast: c.frame.toast, events: r.events, chain: Map::empty() };
    pass_two_settles_its_slots(start, c.cache.tables, images, repair_group(r));
}

proof fn lemma_step_keeps_order(r: ReplayView, c: CoreView)
    requires
        replay_wf(r),
    ensures
        order_kept(r, replay_step(r, c).replay),
{
    reveal(replay_step);
    match r.stage {
        ReplayStage::Repair => {
            if r.pending.len() > 0 {
                lemma_repair_keeps_order(r, c, None);
            }
        },
        ReplayStage::Event => {
            let after = event_started(r, c).replay;
            assert(after.events == r.events);
            assert(after.next == r.next || after.next == r.next + 1);
        },
        _ => {},
    }
}

proof fn lemma_answer_keeps_order(r: ReplayView, c: CoreView, reply: ReplayReplyView)
    requires
        replay_wf(r),
    ensures
        order_kept(r, replay_answered(r, c, reply).replay),
{
    reveal(replay_answered);
    match (replay_ask(r, c), reply) {
        (ReplayAsk::Lookup, ReplayReplyView::Lookup(rows)) => {
            lemma_repair_keeps_order(
                r,
                c,
                match rows {
                    Some(rows) => Some(
                        lookup_images(c.cache.tables[r.pending[0].relation_oid], rows),
                    ),
                    None => None,
                },
            );
        },
        _ => {},
    }
}

/// Events are handled once each and in arrival order: no step goes back, and
/// none passes more than one event. After the repair the events stay as they
/// are, and their number never changes.
pub proof fn events_are_handled_in_order(r: ReplayView, c: CoreView, reply: ReplayReplyView)
    requires
        replay_wf(r),
    ensures
        order_kept(r, replay_step(r, c).replay),
        order_kept(r, replay_answered(r, c, reply).replay),
{
    lemma_step_keeps_order(r, c);
    lemma_answer_keeps_order(r, c, reply);
}

/// A replay ends only when every event was handled or the batch recovers.
pub proof fn replay_ends_complete_or_recovering(
    r: ReplayView,
    c: CoreView,
    reply: ReplayReplyView,
)
    requires
        replay_wf(r),
        r.stage != ReplayStage::Done,
    ensures
        ({
            let stepped = replay_step(r, c);
            let answered = replay_answered(r, c, reply);
            &&& stepped.replay.stage == ReplayStage::Done ==> stepped.replay.next
                >= r.events.len() || stepped.core.frame.state == FrameState::Recovering
            &&& answered.replay.stage == ReplayStage::Done ==> answered.core.frame.state
                == FrameState::Recovering
        }),
{
    reveal(replay_step);
    reveal(replay_answered);
    if r.stage == ReplayStage::Event && r.next < r.end {
        let after = event_started(r, c).replay;
        assert(after.stage != ReplayStage::Done);
    }
}

/// No event begins with an incomplete image: once the repair is over, none is
/// left.
pub proof fn no_event_begins_incomplete(r: ReplayView)
    requires
        replay_wf(r),
        r.stage != ReplayStage::Repair,
    ensures
        forall|i: int| 0 <= i < r.events.len() ==> !awaits_repair(#[trigger] r.events[i]),
{
}

/// How much of the questions about a segment is left.
pub open spec fn segment_rank(s: SegmentView) -> Seq<int> {
    let (phase, part, inline) = match s.stage {
        SegmentStage::Relation => (2int, 4int, 0int),
        SegmentStage::Ask { rest } => (
            2int,
            if rest {
                2int
            } else {
                3int
            },
            1int,
        ),
        SegmentStage::Inline { rest } => (
            2int,
            if rest {
                2int
            } else {
                3int
            },
            0int,
        ),
        SegmentStage::Changes => (1int, 2int, 0int),
        SegmentStage::ChangeRows => (1int, 1int, 1int),
        SegmentStage::ChangeInline => (1int, 1int, 0int),
        SegmentStage::Done => (0int, 0int, 0int),
    };
    let rows = match s.stage {
        SegmentStage::Relation => 0int,
        SegmentStage::Changes => 0int,
        SegmentStage::Done => 0int,
        _ => s.rows.len() - s.row_from,
    };
    let queries = match s.stage {
        SegmentStage::Inline { rest } => part_queries(s, rest).len() - s.query_from,
        _ => 0int,
    };
    let relations = if phase == 0 {
        0int
    } else {
        s.relations.len() - s.at
    };
    seq![phase, relations, part, rows, inline, queries]
}

/// The questions about a segment end: every step that asks nothing, and every
/// answer, leaves less to do.
pub proof fn segment_questions_end(
    s: SegmentView,
    c: CoreView,
    events: Seq<EventView>,
    reply: ReplyView,
)
    requires
        segment_wf(s, events.len()),
        s.stage != SegmentStage::Done,
    ensures
        segment_ask(s) == SegmentAsk::Continue ==> lower(
            segment_rank(segment_step(s, c, events)),
            segment_rank(s),
        ),
        segment_answered(s, reply) matches Some(next) ==> lower(segment_rank(next), segment_rank(s)),
{
    let b = segment_rank(s);
    let a = segment_rank(segment_step(s, c, events));
    if segment_ask(s) == SegmentAsk::Continue {
        match s.stage {
            SegmentStage::Relation => {
                if s.at < s.relations.len() {
                    if segment_step(s, c, events).at > s.at {
                        assert(lower_at(a, b, 1));
                    } else {
                        assert(lower_at(a, b, 2));
                    }
                } else {
                    assert(lower_at(a, b, 0));
                }
            },
            SegmentStage::Ask { rest } => {
                if rest {
                    assert(lower_at(a, b, 1));
                } else {
                    assert(lower_at(a, b, 2));
                }
            },
            SegmentStage::Inline { .. } => {
                assert(chunk_of(s).len() > 0);
                assert(lower_at(a, b, 3));
            },
            SegmentStage::Changes => {
                if s.at < s.relations.len() {
                    if segment_step(s, c, events).at > s.at {
                        assert(lower_at(a, b, 1));
                    } else {
                        assert(lower_at(a, b, 2));
                    }
                } else {
                    assert(lower_at(a, b, 0));
                }
            },
            SegmentStage::ChangeRows => {
                assert(lower_at(a, b, 1));
            },
            _ => {},
        }
    }
    match segment_answered(s, reply) {
        Some(next) => {
            let n = segment_rank(next);
            match s.stage {
                SegmentStage::Ask { rest } => {
                    assert(chunk_of(s).len() > 0);
                    if next.row_from > s.row_from {
                        assert(lower_at(n, b, 3));
                    } else {
                        assert(lower_at(n, b, 4));
                    }
                },
                SegmentStage::Inline { rest } => {
                    assert(query_chunk_of(s, rest).len() > 0);
                    assert(lower_at(n, b, 5));
                },
                SegmentStage::ChangeRows => {
                    assert(chunk_of(s).len() > 0);
                    if next.row_from > s.row_from {
                        assert(lower_at(n, b, 3));
                    } else {
                        assert(lower_at(n, b, 4));
                    }
                },
                SegmentStage::ChangeInline => {
                    assert(chunk_of(s).len() > 0);
                    assert(lower_at(n, b, 3));
                },
                _ => {},
            }
        },
        None => {},
    }
}


/// How much of a replay is left.
pub open spec fn replay_rank(r: ReplayView) -> Seq<int> {
    let live = match r.stage {
        ReplayStage::Repair => 3int,
        ReplayStage::RollingBack => 1int,
        ReplayStage::Done => 0int,
        _ => 2int,
    };
    let repairs = if r.stage == ReplayStage::Repair {
        r.pending.len() as int
    } else {
        0int
    };
    let events = if live == 2 {
        r.events.len() - r.next
    } else {
        0int
    };
    let (part, left, sending) = match r.stage {
        ReplayStage::Segment => (11int, 0int, 0int),
        ReplayStage::Questions => (10int, 0int, 0int),
        ReplayStage::Event => (
            if r.next >= r.end {
                12int
            } else {
                9int
            },
            0int,
            0int,
        ),
        ReplayStage::Changes => (8int, 0int, 0int),
        ReplayStage::Fresh => (7int, r.fresh.len() - r.asked_from, 0int),
        ReplayStage::Toast => (7int, r.fresh.len() - r.asked_from, 0int),
        ReplayStage::Rest => (
            6int,
            if r.matched {
                0int
            } else {
                r.rest.len() - r.asked_from
            },
            0int,
        ),
        ReplayStage::Plan => (5int, 0int, 0int),
        ReplayStage::Ops => (4int, r.ops.len() - r.op_at, 0int),
        ReplayStage::Sending => (4int, r.ops.len() - r.op_at, 1int),
        _ => (0int, 0int, 0int),
    };
    let questions = if r.stage == ReplayStage::Questions {
        segment_rank(r.eval)
    } else {
        seq![0int, 0int, 0int, 0int, 0int, 0int]
    };
    seq![live, repairs, events, part, left, sending] + questions
}

proof fn lemma_group_is_some(pending: Seq<crate::toast::PendingView>, oid: u32)
    requires
        pending.len() > 0,
        pending[0].relation_oid == oid,
    ensures
        slots_by_relation(pending, oid, false).len() < pending.len(),
    decreases pending.len(),
{
    let short = pending.drop_last();
    if short.len() > 0 {
        lemma_group_is_some(short, oid);
    } else {
        assert(pending.last() == pending[0]);
        assert(slots_by_relation(short, oid, false) == short);
    }
}

proof fn lemma_event_rank(r: ReplayView, c: CoreView)
    requires
        replay_wf(r),
        r.stage == ReplayStage::Event,
        r.next < r.end,
        event_started(r, c).error is None,
    ensures
        lower(replay_rank(event_started(r, c).replay), replay_rank(r)),
{
    let after = event_started(r, c).replay;
    let a = replay_rank(after);
    let b = replay_rank(r);
    assert(after.events == r.events && after.end == r.end);
    if after.next > r.next {
        assert(after.stage == ReplayStage::Event);
        assert(lower_at(a, b, 2));
    } else {
        assert(after.next == r.next);
        assert(after.stage == ReplayStage::Fresh || after.stage == ReplayStage::Changes
            || after.stage == ReplayStage::Toast || after.stage == ReplayStage::Ops);
        assert(lower_at(a, b, 3));
    }
}

proof fn lemma_questions_rank(r: ReplayView, after: ReplayView)
    requires
        r.stage == ReplayStage::Questions,
        after == (ReplayView { eval: after.eval, ..r }),
        lower(segment_rank(after.eval), segment_rank(r.eval)),
    ensures
        lower(replay_rank(after), replay_rank(r)),
{
    let a = replay_rank(after);
    let b = replay_rank(r);
    let x = segment_rank(after.eval);
    let y = segment_rank(r.eval);
    let i = choose|i: int| lower_at(x, y, i);
    assert forall|j: int| 0 <= j < i + 6 implies a[j] == b[j] by {
        if j >= 6 {
            assert(a[j] == x[j - 6]);
            assert(b[j] == y[j - 6]);
        }
    }
    assert(a[i + 6] == x[i]);
    assert(b[i + 6] == y[i]);
    assert(lower_at(a, b, i + 6));
}

proof fn lemma_step_rank(r: ReplayView, c: CoreView)
    requires
        replay_wf(r),
        r.stage != ReplayStage::Done,
        replay_ask(r, c) == ReplayAsk::Continue,
        replay_step(r, c).error is None,
    ensures
        lower(replay_rank(replay_step(r, c).replay), replay_rank(r)),
{
    reveal(replay_step);
    let after = replay_step(r, c).replay;
    let a = replay_rank(after);
    let b = replay_rank(r);
    match r.stage {
        ReplayStage::Repair => {
            if r.pending.len() == 0 {
                assert(lower_at(a, b, 0));
            } else {
                lemma_group_is_some(r.pending, r.pending[0].relation_oid);
                assert(lower_at(a, b, 1));
            }
        },
        ReplayStage::Segment => {
            if after.stage == ReplayStage::Done {
                assert(lower_at(a, b, 0));
            } else {
                lemma_segment_end(r.events, r.next);
                assert(after.next < after.end);
                assert(lower_at(a, b, 3));
            }
        },
        ReplayStage::Questions => {
            if segment_ask(r.eval) == SegmentAsk::Done {
                assert(lower_at(a, b, 3));
            } else {
                segment_questions_end(r.eval, c, r.events, ReplyView::Failed);
                lemma_questions_rank(r, after);
            }
        },
        ReplayStage::Event => {
            if c.frame.state == FrameState::Recovering {
                assert(lower_at(a, b, 0));
            } else if r.next >= r.end {
                assert(lower_at(a, b, 3));
            } else {
                lemma_event_rank(r, c);
            }
        },
        ReplayStage::Fresh => {
            assert(lower_at(a, b, 3));
        },
        ReplayStage::Toast => {
            assert(lower_at(a, b, 3));
        },
        ReplayStage::Rest => {
            assert(lower_at(a, b, 3));
        },
        ReplayStage::Plan => {
            assert(lower_at(a, b, 3));
        },
        ReplayStage::Ops => {
            if r.op_at < r.ops.len() {
                assert(lower_at(a, b, 4));
            } else {
                assert(lower_at(a, b, 2));
            }
        },
        _ => {},
    }
}

proof fn lemma_failed_rank(r: ReplayView, c: CoreView, error: crate::error::CacheError)
    requires
        replay_wf(r),
        r.stage != ReplayStage::Done,
        r.stage != ReplayStage::RollingBack,
        statement_failed(r, c, error).error is None,
    ensures
        lower(replay_rank(statement_failed(r, c, error).replay), replay_rank(r)),
{
    let after = statement_failed(r, c, error).replay;
    assert(lower_at(replay_rank(after), replay_rank(r), 0));
}

proof fn lemma_matches_rank(r: ReplayView, c: CoreView, matches: Seq<bool>)
    requires
        replay_wf(r),
        replay_ask(r, c) is Membership,
    ensures
        lower(replay_rank(matches_taken(r, c, matches).replay), replay_rank(r)),
{
    let a = replay_rank(matches_taken(r, c, matches).replay);
    let b = replay_rank(r);
    if r.stage == ReplayStage::Rest {
        assert(asked_chunk(r.rest, r.asked_from).len() > 0);
    } else {
        assert(asked_chunk(r.fresh, r.asked_from).len() > 0);
    }
    assert(lower_at(a, b, 4));
}

proof fn lemma_changes_rank(r: ReplayView, c: CoreView, reply: ReplayReplyView)
    requires
        replay_wf(r),
        r.stage == ReplayStage::Changes,
        reply is Changes,
        replay_answered(r, c, reply).error is None,
    ensures
        lower(replay_rank(replay_answered(r, c, reply).replay), replay_rank(r)),
{
    reveal(replay_answered);
    let after = replay_answered(r, c, reply).replay;
    let a = replay_rank(after);
    let b = replay_rank(r);
    assert(after.events == r.events && after.end == r.end);
    if after.next > r.next {
        assert(lower_at(a, b, 2));
    } else {
        assert(after.stage == ReplayStage::Fresh);
        assert(lower_at(a, b, 3));
    }
}

proof fn lemma_answer_rank(r: ReplayView, c: CoreView, reply: ReplayReplyView)
    requires
        replay_wf(r),
        r.stage != ReplayStage::Done,
        replay_answered(r, c, reply).error is None,
    ensures
        lower(replay_rank(replay_answered(r, c, reply).replay), replay_rank(r)),
{
    reveal(replay_answered);
    let after = replay_answered(r, c, reply).replay;
    let a = replay_rank(after);
    let b = replay_rank(r);
    match (replay_ask(r, c), reply) {
        (ReplayAsk::Lookup, ReplayReplyView::Lookup(_)) => {
            lemma_group_is_some(r.pending, r.pending[0].relation_oid);
            assert(lower_at(a, b, 1));
        },
        (ReplayAsk::Segment { .. }, ReplayReplyView::Segment(answer)) => {
            segment_questions_end(r.eval, c, r.events, answer);
            lemma_questions_rank(r, after);
        },
        (ReplayAsk::Segment { .. }, ReplayReplyView::Failed(error)) => {
            segment_questions_end(r.eval, c, r.events, ReplyView::Failed);
            if segment_answered(r.eval, ReplyView::Failed) is Some {
                lemma_questions_rank(r, after);
            } else {
                lemma_failed_rank(r, c, error);
            }
        },
        (ReplayAsk::RowChanges, ReplayReplyView::Changes(_)) => {
            lemma_changes_rank(r, c, reply);
        },
        (ReplayAsk::RowChanges, ReplayReplyView::Failed(error)) => {
            lemma_failed_rank(r, c, error);
        },
        (ReplayAsk::Membership { .. }, ReplayReplyView::Matches(matches)) => {
            lemma_matches_rank(r, c, matches);
        },
        (ReplayAsk::Membership { .. }, ReplayReplyView::Failed(error)) => {
            lemma_failed_rank(r, c, error);
        },
        (ReplayAsk::Send, ReplayReplyView::Sent) => {
            assert(lower_at(a, b, 5));
        },
        (ReplayAsk::Send, ReplayReplyView::Failed(error)) => {
            lemma_failed_rank(r, c, error);
        },
        (ReplayAsk::Rollback, ReplayReplyView::RolledBack) => {
            assert(lower_at(a, b, 0));
        },
        _ => {},
    }
}

/// A replay comes to an end, whatever the cache database answers: every step
/// that asks nothing, and every answer, leaves less to do.
pub proof fn replay_comes_to_an_end(r: ReplayView, c: CoreView, reply: ReplayReplyView)
    requires
        replay_wf(r),
        r.stage != ReplayStage::Done,
    ensures
        replay_ask(r, c) == ReplayAsk::Continue && replay_step(r, c).error is None ==> lower(
            replay_rank(replay_step(r, c).replay),
            replay_rank(r),
        ),
        replay_answered(r, c, reply).error is None ==> lower(
            replay_rank(replay_answered(r, c, reply).replay),
            replay_rank(r),
        ),
{
    if replay_ask(r, c) == ReplayAsk::Continue && replay_step(r, c).error is None {
        lemma_step_rank(r, c);
    }
    if replay_answered(r, c, reply).error is None {
        lemma_answer_rank(r, c, reply);
    }
}

} // verus!
