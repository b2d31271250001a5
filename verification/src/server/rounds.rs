//! What calls of the queue return and change, in plain terms.

use vstd::prelude::*;

use crate::server::laws;
use crate::server::model;
use crate::server::model::{QueueModel, ResponseView};
use crate::server::operations;
use crate::server::queue;
use crate::server::queue::{
    Dispatch, MonitorRound, PollRound, Queue, RequestItem, RequestStatus, WorkerEvents,
    WorkerStatus,
};
use crate::server::turns;
use crate::server::worker::{ResultCode, TestResultView};
use crate::table;
use crate::text;

verus! {

/// A queue that was just made holds nothing, and has all its workers busy.
pub proof fn law_queue_made<S, C>(
    capacity: usize,
    result_capacity: usize,
    worker_num: usize,
    q: Queue<S, C>,
)
    requires
        call_ensures(Queue::<S, C>::new, (capacity, result_capacity, worker_num), q),
    ensures
        q@.wf(),
        q@.capacity == capacity,
        q@.result_capacity == result_capacity,
        q@.requests.len() == 0,
        q@.results.len() == 0,
        q@.monitors.len() == 0,
        q@.cancels.len() == 0,
        forall|id: Seq<char>| !#[trigger] q@.recent.contains_key(id),
        q@.workers.len() == worker_num,
        forall|w: int| 0 <= w < worker_num ==> #[trigger] q@.workers[w] == WorkerStatus::Busy,
{
    operations::law_new_queue::<S, C>(
        capacity as nat,
        result_capacity as nat,
        worker_num as nat,
    );
}

/// The requests that come wait behind the others as far as there is room, and each is
/// answered: with its identifier, or as refused.
pub proof fn law_requests_come<S, C>(
    q: &mut Queue<S, C>,
    incoming: Vec<RequestItem>,
    replies: Vec<Result<String, ()>>,
)
    requires
        old(q)@.wf(),
        call_ensures(Queue::<S, C>::poll_request_channel, (q, incoming), replies),
    ensures
        final(q)@.wf(),
        replies@.len() == incoming@.len(),
        ({
            let n = old(q)@.requests.len();
            let after = final(q)@.requests;
            &&& after.len() <= n + incoming@.len()
            &&& n + incoming@.len() <= old(q)@.capacity ==> after.len() == n + incoming@.len()
            &&& n + incoming@.len() > old(q)@.capacity ==> after.len() == old(q)@.capacity
            &&& forall|i: int| 0 <= i < n ==> #[trigger] after[i] == old(q)@.requests[i]
            &&& forall|i: int|
                n <= i < after.len() ==> #[trigger] after[i] == incoming@[i - n]@
            &&& forall|i: int|
                #![trigger replies@[i]]
                0 <= i < incoming@.len() ==> {
                    &&& n + i < old(q)@.capacity ==> replies@[i] is Ok && (replies@[i]->Ok_0)@
                        == incoming@[i].id@
                    &&& n + i >= old(q)@.capacity ==> replies@[i] is Err
                }
        }),
        final(q)@ == (QueueModel { requests: final(q)@.requests, ..old(q)@ }),
{
    let views = queue::request_views(incoming@);
    operations::law_intake(old(q)@, views);
    operations::law_replies(old(q)@, incoming@, replies@);
    assert forall|i: int| 0 <= i < incoming@.len() implies #[trigger] views[i]
        == incoming@[i]@ by {}
}

/// The requests that wait go to the workers that are idle or ready, in order, one to
/// each, lower workers first, until no request waits or all workers are busy.
pub proof fn law_workers_served<S, C, R, F: Fn() -> (C, R)>(
    q: &mut Queue<S, C>,
    events: Vec<WorkerEvents>,
    open: &F,
    dispatches: Vec<Dispatch<R>>,
)
    requires
        old(q)@.wf(),
        events@.len() == old(q)@.workers.len(),
        call_ensures(Queue::<S, C>::poll_worker_channel::<R, F>, (q, events, open), dispatches),
    ensures
        final(q)@.wf(),
        dispatches@.len() <= old(q)@.requests.len(),
        forall|k: int|
            0 <= k < dispatches@.len() ==> (#[trigger] dispatches@[k]).request@
                == old(q)@.requests[k],
        final(q)@.requests == old(q)@.requests.skip(dispatches@.len() as int),
        forall|k: int|
            #![trigger dispatches@[k]]
            0 <= k < dispatches@.len() ==> {
                &&& dispatches@[k].worker < old(q)@.workers.len()
                &&& old(q)@.workers[dispatches@[k].worker as int] == WorkerStatus::Idle
                    || events@[dispatches@[k].worker as int].ready
            },
        forall|j: int, k: int|
            0 <= j < k < dispatches@.len() ==> (#[trigger] dispatches@[j]).worker < (
            #[trigger] dispatches@[k]).worker,
        final(q)@.requests.len() > 0 ==> forall|w: int|
            0 <= w < final(q)@.workers.len() ==> #[trigger] final(q)@.workers[w]
                == WorkerStatus::Busy,
        final(q)@.capacity == old(q)@.capacity,
        final(q)@.result_capacity == old(q)@.result_capacity,
{
    let cancels = choose|cancels: Seq<C>|
        queue::served(
            old(q)@,
            queue::event_views(events@),
            *open,
            final(q)@,
            dispatches@,
            cancels,
        );
    operations::law_requests_to_workers(old(q)@, events@, *open, final(q)@, dispatches@, cancels);
}

/// A worker is idle then exactly if it was idle or ready and got no request.
pub proof fn law_workers_idle<S, C, R, F: Fn() -> (C, R)>(
    q: &mut Queue<S, C>,
    events: Vec<WorkerEvents>,
    open: &F,
    dispatches: Vec<Dispatch<R>>,
    w: int,
)
    requires
        old(q)@.wf(),
        events@.len() == old(q)@.workers.len(),
        call_ensures(Queue::<S, C>::poll_worker_channel::<R, F>, (q, events, open), dispatches),
        0 <= w < old(q)@.workers.len(),
    ensures
        final(q)@.wf(),
        final(q)@.workers.len() == old(q)@.workers.len(),
        final(q)@.workers[w] == WorkerStatus::Idle <==> (old(q)@.workers[w] == WorkerStatus::Idle
            || events@[w].ready) && forall|k: int|
            0 <= k < dispatches@.len() ==> (#[trigger] dispatches@[k]).worker != w,
{
    let cancels = choose|cancels: Seq<C>|
        queue::served(
            old(q)@,
            queue::event_views(events@),
            *open,
            final(q)@,
            dispatches@,
            cancels,
        );
    operations::law_idle_workers(old(q)@, events@, *open, final(q)@, dispatches@, cancels, w);
}

/// A request goes to its worker with the receiving end of the cancel channel that the
/// queue keeps for it; the cancel channels of other requests stay.
pub proof fn law_channels_opened<S, C, R, F: Fn() -> (C, R)>(
    q: &mut Queue<S, C>,
    events: Vec<WorkerEvents>,
    open: &F,
    dispatches: Vec<Dispatch<R>>,
    id: Seq<char>,
)
    requires
        old(q)@.wf(),
        events@.len() == old(q)@.workers.len(),
        call_ensures(Queue::<S, C>::poll_worker_channel::<R, F>, (q, events, open), dispatches),
    ensures
        final(q)@.wf(),
        (forall|k: int|
            0 <= k < dispatches@.len() ==> (#[trigger] dispatches@[k]).request.id@ != id)
            ==> table::lookup(final(q)@.cancels, id) == table::lookup(old(q)@.cancels, id),
        forall|k: int|
            #![trigger dispatches@[k]]
            0 <= k < dispatches@.len() && dispatches@[k].request.id@ == id && (forall|j: int|
                k < j < dispatches@.len() ==> (#[trigger] dispatches@[j]).request.id@ != id) ==> {
                &&& table::lookup(final(q)@.cancels, id) is Some
                &&& call_ensures(
                    *open,
                    (),
                    (table::lookup(final(q)@.cancels, id)->0, dispatches@[k].cancel_receiver),
                )
            },
{
    let cancels = choose|cancels: Seq<C>|
        queue::served(
            old(q)@,
            queue::event_views(events@),
            *open,
            final(q)@,
            dispatches@,
            cancels,
        );
    operations::law_cancel_channels(old(q)@, events@, *open, final(q)@, dispatches@, cancels, id);
}

/// What the workers report of a request is kept behind what is kept of it, in the
/// order in which it came, and drops nothing while there is room.
pub proof fn law_reports_come<S, C, R, F: Fn() -> (C, R)>(
    q: &mut Queue<S, C>,
    events: Vec<WorkerEvents>,
    open: &F,
    dispatches: Vec<Dispatch<R>>,
    id: Seq<char>,
)
    requires
        old(q)@.wf(),
        events@.len() == old(q)@.workers.len(),
        call_ensures(Queue::<S, C>::poll_worker_channel::<R, F>, (q, events, open), dispatches),
        table::lookup(old(q)@.results, id) is Some,
        forall|k: int|
            0 <= k < dispatches@.len() ==> (#[trigger] dispatches@[k]).request.id@ != id,
    ensures
        ({
            let reports = laws::all_reports(queue::event_views(events@)).filter(
                |r: TestResultView| r.id == id,
            );
            let kept = table::lookup(final(q)@.results, id);
            let ids = Seq::new(
                dispatches@.len(),
                |k: int| dispatches@[k].request.id@,
            );
            &&& kept is Some ==> kept->0 == table::lookup(old(q)@.results, id)->0 + reports
            &&& (table::keys(old(q)@.results) + ids).no_duplicates() && old(q)@.results.len()
                + dispatches@.len() <= old(q)@.result_capacity ==> kept is Some
        }),
{
    let m = old(q)@;
    let views = queue::event_views(events@);
    let cancels = choose|cancels: Seq<C>|
        queue::served(m, views, *open, final(q)@, dispatches@, cancels);
    let handed = m.serve(views, cancels).1;
    assert(handed == queue::dispatch_views(dispatches@));
    let handed_ids = model::request_ids(laws::handed_requests(handed));
    let ids = Seq::new(dispatches@.len(), |k: int| dispatches@[k].request.id@);
    assert(handed_ids =~= ids);
    if handed_ids.contains(id) {
        let k = handed_ids.index_of(id);
        assert(dispatches@[k].request.id@ == id);
    }
    laws::law_turn_keeps_reports(m, views, cancels, id);
    if (table::keys(m.results) + ids).no_duplicates() && m.results.len() + dispatches@.len()
        <= m.result_capacity {
        operations::law_all_kept_below_capacity(m, views, cancels, id);
    }
}

/// What a round of the monitors does and tells, seen from one request: see
/// [`operations::law_monitor_round`].
pub proof fn law_monitors_told<S, C>(
    q: &mut Queue<S, C>,
    monitors: Vec<(String, S)>,
    round: MonitorRound,
    id: Seq<char>,
)
    requires
        old(q)@.wf(),
        call_ensures(Queue::<S, C>::poll_monitor_channel, (q, monitors), round),
    ensures
        final(q)@.wf(),
        ({
            let m = old(q)@;
            let after = final(q)@;
            let told = queue::response_views(round.responses@).filter(
                |r: ResponseView| r.id == id,
            );
            let ended = exists|i: int|
                0 <= i < round.finished@.len() && (#[trigger] round.finished@[i])@ == id;
            let monitored = table::lookup(after.monitors, id) is Some;
            let kept = table::lookup(m.results, id);
            let waits = exists|p: int|
                0 <= p < m.requests.len() && (#[trigger] m.requests[p]).id == id;
            &&& (forall|k: int| 0 <= k < monitors@.len() ==> (#[trigger] monitors@[k]).0@ != id)
                ==> table::lookup(after.monitors, id) == table::lookup(m.monitors, id)
            &&& forall|k: int|
                #![trigger monitors@[k]]
                0 <= k < monitors@.len() && monitors@[k].0@ == id && (forall|j: int|
                    k < j < monitors@.len() ==> (#[trigger] monitors@[j]).0@ != id)
                    ==> table::lookup(after.monitors, id) == Some(monitors@[k].1)
            &&& after.requests == m.requests
            &&& after.workers == m.workers
            &&& after.cancels == m.cancels
            &&& !monitored ==> {
                &&& told.len() == 0
                &&& !ended
                &&& table::lookup(after.results, id) == kept
            }
            &&& monitored && kept is Some ==> {
                &&& told.len() == kept->0.len()
                &&& forall|i: int|
                    #![trigger told[i]]
                    0 <= i < told.len() ==> {
                        let was = kept->0[i];
                        let t = told[i].test_result->0;
                        &&& told[i].test_result is Some
                        &&& was.result_code == ResultCode::Processing ==> told[i].status
                            == RequestStatus::Processing && t == was
                        &&& was.result_code != ResultCode::Processing ==> told[i].status
                            == RequestStatus::Completed && t.output.len() == 0 && t.time_ms
                            == was.time_ms && t.result_code == was.result_code && t.id == was.id
                    }
                &&& table::lookup(after.results, id) == Some(Seq::<TestResultView>::empty())
                &&& ended <==> kept->0.len() > 0 && kept->0[kept->0.len() - 1].result_code
                    != ResultCode::Processing
            }
            &&& monitored && kept is None && waits ==> !ended && told.len() <= 1 && (told.len()
                == 1 ==> told[0].status is Queued && told[0].test_result is None)
            &&& monitored && kept is None && !waits ==> {
                &&& ended
                &&& told.len() == 1
                &&& told[0].status == RequestStatus::NotFound
                &&& told[0].test_result is None
            }
        }),
{
    operations::law_monitor_round(old(q)@, monitors@, final(q)@, round, id);
    let m = old(q)@;
    operations::law_position(m, id);
    if let Some(p) = m.position(id) {
        assert(m.requests[p].id == id);
    }
}

/// The rank that a round tells of a waiting request is its place among those that
/// wait, and it is told exactly if it is not what was told last.
pub proof fn law_rank_told<S, C>(
    q: &mut Queue<S, C>,
    monitors: Vec<(String, S)>,
    round: MonitorRound,
    id: Seq<char>,
    p: int,
)
    requires
        old(q)@.wf(),
        call_ensures(Queue::<S, C>::poll_monitor_channel, (q, monitors), round),
        table::lookup(final(q)@.monitors, id) is Some,
        table::lookup(old(q)@.results, id) is None,
        0 <= p < old(q)@.requests.len(),
        old(q)@.requests[p].id == id,
        forall|j: int| 0 <= j < p ==> (#[trigger] old(q)@.requests[j]).id != id,
    ensures
        ({
            let rank = RequestStatus::Queued((p + 1) as usize);
            let told = queue::response_views(round.responses@).filter(
                |r: ResponseView| r.id == id,
            );
            let known = old(q)@.recent.contains_key(id) && old(q)@.recent[id] == rank;
            &&& known ==> told.len() == 0
            &&& !known ==> told.len() == 1 && told[0].status == rank
            &&& final(q)@.recent.contains_key(id) && final(q)@.recent[id] == rank
        }),
{
    operations::law_monitor_round(old(q)@, monitors@, final(q)@, round, id);
    assert(old(q)@.requests[p].id == id);
}

/// Where a monitor is found: under the request that it follows.
pub proof fn law_monitor_found<S, C>(q: Queue<S, C>, id: String, r: Option<&S>)
    requires
        call_ensures(Queue::<S, C>::monitor, (&q, &id), r),
    ensures
        r is None <==> forall|i: int|
            0 <= i < q@.monitors.len() ==> (#[trigger] q@.monitors[i]).0 != id@,
        r matches Some(s) ==> q@.monitors.contains((id@, *s)),
{
    table::law_lookup(q@.monitors, id@);
    if let Some(s) = r {
        let i = choose|i: int|
            #![trigger q@.monitors[i]]
            0 <= i < q@.monitors.len() && q@.monitors[i].0 == id@ && q@.monitors[i].1 == *s;
        assert(q@.monitors[i] == (id@, *s));
    }
}

/// Settling gives up exactly the requests that are named: each of them that has a
/// cancel channel gets one signal through it, and nothing of it is kept; everything
/// of every other request stays as it was.
pub proof fn law_settled<S, C>(
    q: &mut Queue<S, C>,
    finished: Vec<String>,
    failed: Vec<String>,
    signals: Vec<C>,
    id: Seq<char>,
)
    requires
        old(q)@.wf(),
        call_ensures(Queue::<S, C>::settle, (q, finished, failed), signals),
    ensures
        final(q)@.wf(),
        ({
            let m = old(q)@;
            let after = final(q)@;
            let ids = text::texts(finished@) + text::texts(failed@);
            let others = |r: model::RequestView| !ids.contains(r.id);
            &&& ids.contains(id) <==> (exists|i: int|
                0 <= i < finished@.len() && (#[trigger] finished@[i])@ == id) || (exists|i: int|
                0 <= i < failed@.len() && (#[trigger] failed@[i])@ == id)
            &&& ids.contains(id) ==> {
                &&& table::lookup(after.monitors, id) is None
                &&& table::lookup(after.results, id) is None
                &&& table::lookup(after.cancels, id) is None
                &&& table::lookup(m.cancels, id) matches Some(c) ==> signals@.contains(c)
            }
            &&& !ids.contains(id) ==> {
                &&& table::lookup(after.monitors, id) == table::lookup(m.monitors, id)
                &&& table::lookup(after.results, id) == table::lookup(m.results, id)
                &&& table::lookup(after.cancels, id) == table::lookup(m.cancels, id)
            }
            &&& after.requests.filter(others) == m.requests.filter(others)
            &&& after.workers == m.workers
            &&& after.recent == m.recent
            &&& after.capacity == m.capacity
            &&& after.result_capacity == m.result_capacity
            &&& signals@.len() == ids.to_set().filter(
                |k: Seq<char>| table::lookup(m.cancels, k) is Some,
            ).len()
        }),
{
    let m = old(q)@;
    let first = text::texts(finished@);
    let second = text::texts(failed@);
    let ids = first + second;
    laws::law_given_up(m, ids);
    laws::law_cancel_signals(m, ids);
    laws::law_one_signal_each(m, ids);
    operations::law_giving_up_leaves_others(m, ids);
    if ids.contains(id) {
        let i = ids.index_of(id);
        if i < first.len() {
            assert(finished@[i]@ == id);
        } else {
            assert(failed@[i - first.len()]@ == id);
        }
    }
    assert forall|i: int| 0 <= i < finished@.len() && (#[trigger] finished@[i])@ == id implies
        ids.contains(id) by {
        assert(ids[i] == id);
    }
    assert forall|i: int| 0 <= i < failed@.len() && (#[trigger] failed@[i])@ == id implies
        ids.contains(id) by {
        assert(ids[first.len() + i] == id);
    }
}

/// As long as no request waits twice, none that was given up waits after settling,
/// and all others wait in their order.
pub proof fn law_settled_do_not_wait<S, C>(
    q: &mut Queue<S, C>,
    finished: Vec<String>,
    failed: Vec<String>,
    signals: Vec<C>,
)
    requires
        old(q)@.wf(),
        model::request_ids(old(q)@.requests).no_duplicates(),
        call_ensures(Queue::<S, C>::settle, (q, finished, failed), signals),
    ensures
        ({
            let ids = text::texts(finished@) + text::texts(failed@);
            let others = |r: model::RequestView| !ids.contains(r.id);
            final(q)@.requests == old(q)@.requests.filter(others)
        }),
{
    let m = old(q)@;
    let ids = text::texts(finished@) + text::texts(failed@);
    let others = |r: model::RequestView| !ids.contains(r.id);
    operations::law_given_up_do_not_wait(m, ids);
    operations::law_giving_up_leaves_others(m, ids);
    laws::lemma_filter_all(final(q)@.requests, others);
}

/// A turn of the queue: requests are answered by the room that there is, then go to
/// workers in the order in which they wait.
pub proof fn law_turn_of_queue<S, C, R, F: Fn() -> (C, R)>(
    q: &mut Queue<S, C>,
    requests: Vec<RequestItem>,
    events: Vec<WorkerEvents>,
    monitors: Vec<(String, S)>,
    open: &F,
    turn: PollRound<R>,
)
    requires
        old(q)@.wf(),
        events@.len() == old(q)@.workers.len(),
        call_ensures(
            Queue::<S, C>::poll::<R, F>,
            (q, requests, events, monitors, open),
            turn,
        ),
    ensures
        final(q)@.wf(),
        turn.replies@.len() == requests@.len(),
        ({
            let m = old(q)@;
            let n = m.requests.len();
            let ds = turn.dispatches@;
            &&& forall|i: int|
                #![trigger turn.replies@[i]]
                0 <= i < requests@.len() ==> {
                    &&& n + i < m.capacity ==> turn.replies@[i] is Ok && (
                    turn.replies@[i]->Ok_0)@ == requests@[i].id@
                    &&& n + i >= m.capacity ==> turn.replies@[i] is Err
                }
            &&& forall|k: int|
                #![trigger ds[k]]
                0 <= k < ds.len() ==> {
                    &&& ds[k].request@ == if k < n {
                        m.requests[k]
                    } else {
                        requests@[k - n]@
                    }
                    &&& ds[k].worker < m.workers.len()
                    &&& m.workers[ds[k].worker as int] == WorkerStatus::Idle
                        || events@[ds[k].worker as int].ready
                }
            &&& forall|j: int, k: int|
                0 <= j < k < ds.len() ==> (#[trigger] ds[j]).worker < (#[trigger] ds[k]).worker
            &&& n + requests@.len() <= m.capacity ==> final(q)@.requests.len() == n
                + requests@.len() - ds.len()
            &&& final(q)@.requests.len() > 0 ==> forall|w: int|
                0 <= w < final(q)@.workers.len() ==> #[trigger] final(q)@.workers[w]
                    == WorkerStatus::Busy
        }),
{
    let m = old(q)@;
    let views = queue::request_views(requests@);
    let enqueued = m.enqueue(views);
    let (after, cancels): (QueueModel<S, C>, Seq<C>) = choose|
        after: QueueModel<S, C>,
        cancels: Seq<C>,
    |
        {
            &&& #[trigger] queue::served(
                enqueued,
                queue::event_views(events@),
                *open,
                after,
                turn.dispatches@,
                cancels,
            )
            &&& queue::reported(after, monitors@, final(q)@, turn.round)
        };
    laws::law_capacity(m, views);
    operations::law_intake(m, views);
    operations::law_replies(m, requests@, turn.replies@);
    operations::law_requests_to_workers(
        enqueued,
        events@,
        *open,
        after,
        turn.dispatches@,
        cancels,
    );
    enqueued.lemma_serve(queue::event_views(events@), cancels);
    operations::law_monitor_round(after, monitors@, final(q)@, turn.round, Seq::empty());
    assert forall|i: int| 0 <= i < requests@.len() implies #[trigger] views[i]
        == requests@[i]@ by {}
}

/// What a turn tells the monitor of a request that was handed out earlier: the reports
/// that were kept of it and those that come in the turn, once and in order, each line
/// as it is and the end with its time and its result code. Then none is kept, and the
/// request ends with the turn exactly if the last report says that the test has ended.
pub proof fn law_turn_tells_reports<S, C, R, F: Fn() -> (C, R)>(
    q: &mut Queue<S, C>,
    requests: Vec<RequestItem>,
    events: Vec<WorkerEvents>,
    monitors: Vec<(String, S)>,
    open: &F,
    turn: PollRound<R>,
    id: Seq<char>,
)
    requires
        old(q)@.wf(),
        events@.len() == old(q)@.workers.len(),
        call_ensures(
            Queue::<S, C>::poll::<R, F>,
            (q, requests, events, monitors, open),
            turn,
        ),
        table::lookup(old(q)@.results, id) is Some,
        table::lookup(final(q)@.results, id) is Some,
        table::lookup(final(q)@.monitors, id) is Some,
        forall|k: int|
            0 <= k < turn.dispatches@.len() ==> (#[trigger] turn.dispatches@[k]).request.id@ != id,
    ensures
        ({
            let reports = table::lookup(old(q)@.results, id)->0 + laws::all_reports(
                queue::event_views(events@),
            ).filter(|r: TestResultView| r.id == id);
            let told = queue::response_views(turn.round.responses@).filter(
                |r: ResponseView| r.id == id,
            );
            let ended = exists|i: int|
                0 <= i < turn.round.finished@.len() && (#[trigger] turn.round.finished@[i])@ == id;
            &&& told.len() == reports.len()
            &&& forall|i: int|
                #![trigger told[i]]
                0 <= i < told.len() ==> {
                    let was = reports[i];
                    let t = told[i].test_result->0;
                    &&& told[i].test_result is Some
                    &&& was.result_code == ResultCode::Processing ==> told[i].status
                        == RequestStatus::Processing && t == was
                    &&& was.result_code != ResultCode::Processing ==> told[i].status
                        == RequestStatus::Completed && t.output.len() == 0 && t.time_ms
                        == was.time_ms && t.result_code == was.result_code && t.id == was.id
                }
            &&& table::lookup(final(q)@.results, id) == Some(Seq::<TestResultView>::empty())
            &&& ended <==> reports.len() > 0 && reports[reports.len() - 1].result_code
                != ResultCode::Processing
        }),
{
    let m = old(q)@;
    let requests_in = queue::request_views(requests@);
    let enqueued = m.enqueue(requests_in);
    let views = queue::event_views(events@);
    let (after, cancels): (QueueModel<S, C>, Seq<C>) = choose|
        after: QueueModel<S, C>,
        cancels: Seq<C>,
    |
        {
            &&& #[trigger] queue::served(
                enqueued,
                views,
                *open,
                after,
                turn.dispatches@,
                cancels,
            )
            &&& queue::reported(after, monitors@, final(q)@, turn.round)
        };
    laws::law_capacity(m, requests_in);
    enqueued.lemma_serve(views, cancels);
    let handed = enqueued.serve(views, cancels).1;
    assert(handed == queue::dispatch_views(turn.dispatches@));
    let handed_ids = model::request_ids(laws::handed_requests(handed));
    if handed_ids.contains(id) {
        let k = handed_ids.index_of(id);
        assert(turn.dispatches@[k].request.id@ == id);
    }
    laws::law_turn_keeps_reports(enqueued, views, cancels, id);
    operations::law_monitor_round(after, monitors@, final(q)@, turn.round, id);
    lemma_entry_survives(after, monitors@, final(q)@, turn.round, id);
}

/// A round of the monitors makes no entry for reports.
proof fn lemma_entry_survives<S, C>(
    m: QueueModel<S, C>,
    monitors: Seq<(String, S)>,
    after: QueueModel<S, C>,
    round: MonitorRound,
    id: Seq<char>,
)
    requires
        m.wf(),
        queue::reported(m, monitors, after, round),
    ensures
        table::lookup(after.results, id) is Some ==> table::lookup(m.results, id) is Some,
{
    let incoming = queue::monitor_views(monitors);
    let watched = m.watch(incoming);
    m.lemma_watch(incoming);
    turns::lemma_tell_entries(watched, watched.monitors.len(), id);
}

/// A request that waits at the end of a turn, is monitored, and of which nothing was
/// told before the turn, is told in the turn: its place among those that still wait,
/// counted from 1.
pub proof fn law_new_request_told<S, C, R, F: Fn() -> (C, R)>(
    q: &mut Queue<S, C>,
    requests: Vec<RequestItem>,
    events: Vec<WorkerEvents>,
    monitors: Vec<(String, S)>,
    open: &F,
    turn: PollRound<R>,
    p: int,
)
    requires
        old(q)@.wf(),
        events@.len() == old(q)@.workers.len(),
        call_ensures(
            Queue::<S, C>::poll::<R, F>,
            (q, requests, events, monitors, open),
            turn,
        ),
        0 <= p < final(q)@.requests.len(),
        model::request_ids(final(q)@.requests).no_duplicates(),
        table::lookup(final(q)@.monitors, final(q)@.requests[p].id) is Some,
        table::lookup(final(q)@.results, final(q)@.requests[p].id) is None,
        table::lookup(old(q)@.results, final(q)@.requests[p].id) is None,
        !old(q)@.recent.contains_key(final(q)@.requests[p].id),
    ensures
        ({
            let id = final(q)@.requests[p].id;
            let told = queue::response_views(turn.round.responses@).filter(
                |r: ResponseView| r.id == id,
            );
            &&& told.len() == 1
            &&& told[0].status == RequestStatus::Queued((p + 1) as usize)
            &&& told[0].test_result is None
        }),
{
    let m = old(q)@;
    let id = final(q)@.requests[p].id;
    let requests_in = queue::request_views(requests@);
    let enqueued = m.enqueue(requests_in);
    let views = queue::event_views(events@);
    let (after, cancels): (QueueModel<S, C>, Seq<C>) = choose|
        after: QueueModel<S, C>,
        cancels: Seq<C>,
    |
        {
            &&& #[trigger] queue::served(
                enqueued,
                views,
                *open,
                after,
                turn.dispatches@,
                cancels,
            )
            &&& queue::reported(after, monitors@, final(q)@, turn.round)
        };
    laws::law_capacity(m, requests_in);
    enqueued.lemma_serve(views, cancels);
    operations::law_monitor_round(after, monitors@, final(q)@, turn.round, id);
    operations::lemma_recent_after(enqueued, views, cancels, id);
    let ids = model::request_ids(final(q)@.requests);
    assert(after.requests[p].id == id);
    assert forall|j: int| 0 <= j < p implies (#[trigger] after.requests[j]).id != id by {
        assert(ids[j] != ids[p]);
    }
}

} // verus!
