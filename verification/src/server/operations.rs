//! What each operation of the queue changes, what it leaves as it was, and what it
//! tells, request by request.

use vstd::prelude::*;

use crate::server::laws;
use crate::server::model;
use crate::server::model::{EventsView, QueueModel, RequestView, ResponseView};
use crate::server::queue;
use crate::server::queue::{
    Dispatch, MonitorRound, RequestItem, RequestResponse, RequestStatus, WorkerEvents, WorkerStatus,
};
use crate::server::turns;
use crate::server::worker::{ResultCode, TestResult, TestResultView};
use crate::table;
use crate::text;

verus! {

/// A new queue is empty, knows of no monitor and no cancel channel, and has all its
/// workers busy until they say that they are ready.
pub proof fn law_new_queue<S, C>(capacity: nat, result_capacity: nat, workers: nat)
    ensures
        ({
            let m = QueueModel::<S, C>::init(capacity, result_capacity, workers);
            &&& m.capacity == capacity
            &&& m.result_capacity == result_capacity
            &&& m.requests.len() == 0
            &&& m.results.len() == 0
            &&& m.monitors.len() == 0
            &&& m.cancels.len() == 0
            &&& forall|id: Seq<char>| !#[trigger] m.recent.contains_key(id)
            &&& m.workers.len() == workers
            &&& forall|w: int| 0 <= w < workers ==> #[trigger] m.workers[w] == WorkerStatus::Busy
        }),
{
}

/// At no time do more requests wait, or have more requests reports kept, than may;
/// and no request has two entries, two monitors or two cancel channels.
pub proof fn law_bounds<S, C>(m: QueueModel<S, C>)
    requires
        m.wf(),
    ensures
        m.requests.len() <= m.capacity,
        m.results.len() <= m.result_capacity,
        forall|i: int, j: int|
            0 <= i < j < m.results.len() ==> (#[trigger] m.results[i]).0 != (
            #[trigger] m.results[j]).0,
        forall|i: int, j: int|
            0 <= i < j < m.monitors.len() ==> (#[trigger] m.monitors[i]).0 != (
            #[trigger] m.monitors[j]).0,
        forall|i: int, j: int|
            0 <= i < j < m.cancels.len() ==> (#[trigger] m.cancels[i]).0 != (
            #[trigger] m.cancels[j]).0,
{
    table::law_distinct(m.results);
    table::law_distinct(m.monitors);
    table::law_distinct(m.cancels);
}

/// What the values of the queue hold is what their fields hold.
pub proof fn law_views<S, R>(
    request: RequestItem,
    response: RequestResponse,
    result: TestResult,
    events: WorkerEvents,
    dispatches: Seq<Dispatch<R>>,
    monitors: Seq<(String, S)>,
    i: int,
)
    ensures
        request@.id == request.id@,
        request@.req_type == request.req_type,
        request@.body == request.body@,
        response@.id == response.id@,
        response@.status == response.status,
        response@.test_result is Some <==> response.test_result is Some,
        response.test_result is Some ==> response@.test_result->0 == response.test_result->0@,
        result@.id == result.id@,
        result@.point == result.point,
        result@.total == result.total,
        result@.output == result.output@,
        result@.time_ms == result.time_ms,
        result@.result_code == result.result_code,
        events@.ready == events.ready,
        events@.results.len() == events.results@.len(),
        0 <= i < events.results@.len() ==> events@.results[i] == events.results@[i]@,
        queue::dispatch_views(dispatches).len() == dispatches.len(),
        0 <= i < dispatches.len() ==> queue::dispatch_views(dispatches)[i] == (
            dispatches[i].worker as int,
            dispatches[i].request@,
        ),
        queue::monitor_views(monitors).len() == monitors.len(),
        0 <= i < monitors.len() ==> queue::monitor_views(monitors)[i] == (
            monitors[i].0@,
            monitors[i].1,
        ),
{
}

/// What sequences of values hold is what each of them holds, in order.
pub proof fn law_sequence_views(
    requests: Seq<RequestItem>,
    responses: Seq<RequestResponse>,
    events: Seq<WorkerEvents>,
    texts: Seq<String>,
    i: int,
)
    ensures
        queue::request_views(requests).len() == requests.len(),
        0 <= i < requests.len() ==> queue::request_views(requests)[i] == requests[i]@,
        queue::response_views(responses).len() == responses.len(),
        0 <= i < responses.len() ==> queue::response_views(responses)[i] == responses[i]@,
        queue::event_views(events).len() == events.len(),
        0 <= i < events.len() ==> queue::event_views(events)[i] == events[i]@,
        text::texts(texts).len() == texts.len(),
        0 <= i < texts.len() ==> text::texts(texts)[i] == texts[i]@,
{
}

/// Taking requests in: as many of them as there is room for wait behind those that
/// wait, in the order in which they came, and nothing else changes.
pub proof fn law_intake<S, C>(m: QueueModel<S, C>, incoming: Seq<RequestView>)
    requires
        m.wf(),
    ensures
        ({
            let after = m.enqueue(incoming);
            let n = m.requests.len();
            &&& n + incoming.len() <= m.capacity ==> after.requests == m.requests + incoming
            &&& n + incoming.len() > m.capacity ==> after.requests.len() == m.capacity
            &&& forall|i: int| 0 <= i < n ==> #[trigger] after.requests[i] == m.requests[i]
            &&& forall|i: int|
                n <= i < after.requests.len() ==> #[trigger] after.requests[i] == incoming[i - n]
            &&& after == (QueueModel { requests: after.requests, ..m })
        }),
{
    let n = m.requests.len();
    if n + incoming.len() <= m.capacity {
        assert(incoming.take(incoming.len() as int) =~= incoming);
    }
}

/// Each request that came is answered: with its identifier if there was room for it
/// behind those that wait and those that came before it, and as refused otherwise.
pub proof fn law_replies<S, C>(
    m: QueueModel<S, C>,
    incoming: Seq<RequestItem>,
    replies: Seq<Result<String, ()>>,
)
    requires
        m.wf(),
        queue::replied(m, incoming, replies),
    ensures
        replies.len() == incoming.len(),
        forall|i: int|
            #![trigger replies[i]]
            0 <= i < incoming.len() ==> {
                &&& m.requests.len() + i < m.capacity ==> replies[i] is Ok && (replies[i]->Ok_0)@
                    == incoming[i].id@
                &&& m.requests.len() + i >= m.capacity ==> replies[i] is Err
            },
{
    assert forall|i: int| #![trigger replies[i]] 0 <= i < incoming.len() implies {
        &&& m.requests.len() + i < m.capacity ==> replies[i] is Ok && (replies[i]->Ok_0)@
            == incoming[i].id@
        &&& m.requests.len() + i >= m.capacity ==> replies[i] is Err
    } by {
        match replies[i] {
            Ok(id) => {},
            Err(_) => {},
        }
    }
}

/// Hearing a worker: its reports are added behind those that are kept of their
/// requests, in order; a worker that said that it is ready is idle then; and nothing
/// else changes.
pub proof fn law_heard<S, C>(
    m: QueueModel<S, C>,
    worker: int,
    events: EventsView,
    id: Seq<char>,
    w: int,
)
    requires
        m.wf(),
        0 <= worker < m.workers.len(),
        0 <= w < m.workers.len(),
    ensures
        ({
            let after = m.hear(worker, events);
            &&& table::lookup(m.results, id) is None ==> table::lookup(after.results, id) is None
            &&& table::lookup(m.results, id) is Some ==> table::lookup(after.results, id) == Some(
                table::lookup(m.results, id)->0 + events.results.filter(
                    |r: TestResultView| r.id == id,
                ),
            )
            &&& after.results.len() == m.results.len()
            &&& forall|i: int|
                0 <= i < m.results.len() ==> (#[trigger] after.results[i]).0 == m.results[i].0
            &&& after.workers.len() == m.workers.len()
            &&& after.workers[w] == if w == worker && events.ready {
                WorkerStatus::Idle
            } else {
                m.workers[w]
            }
            &&& after == (QueueModel { results: after.results, workers: after.workers, ..m })
        }),
{
    let after = m.hear(worker, events);
    m.lemma_hear(worker, events);
    m.lemma_record_all(events.results);
    laws::law_reports_kept_in_order(m, events.results, id);
    let now = table::keys(after.results);
    let was = table::keys(m.results);
    assert(now == was);
    assert(now.len() == after.results.len() && was.len() == m.results.len());
    assert forall|i: int| 0 <= i < m.results.len() implies (#[trigger] after.results[i]).0
        == m.results[i].0 by {
        assert(now[i] == after.results[i].0);
        assert(was[i] == m.results[i].0);
    }
}

/// Handing a request out: the first waiting request leaves, the others keep their
/// order, the worker is busy and the others are as they were; the request can be
/// canceled through its new channel, and every other one through its own.
pub proof fn law_handing_out<S, C>(
    m: QueueModel<S, C>,
    worker: int,
    cancel: C,
    id: Seq<char>,
)
    requires
        m.wf(),
        m.requests.len() > 0,
        0 <= worker < m.workers.len(),
    ensures
        ({
            let after = m.hand_out(worker, cancel);
            &&& seq![m.requests[0]] + after.requests == m.requests
            &&& after.workers == m.workers.update(worker, WorkerStatus::Busy)
            &&& after.capacity == m.capacity
            &&& after.result_capacity == m.result_capacity
            &&& table::lookup(after.cancels, id) == if id == m.requests[0].id {
                Some(cancel)
            } else {
                table::lookup(m.cancels, id)
            }
        }),
{
    let after = m.hand_out(worker, cancel);
    assert(seq![m.requests[0]] + after.requests =~= m.requests);
    table::lemma_put(m.cancels, m.requests[0].id, cancel);
    assert(after.cancels == table::put(m.cancels, m.requests[0].id, cancel));
}

/// Handing a request out while fewer requests have reports kept than may, or reports
/// of that very request are kept, drops nothing: the reports of every other request,
/// every monitor and all that was told stay as they were.
pub proof fn law_nothing_dropped_below_capacity<S, C>(
    m: QueueModel<S, C>,
    worker: int,
    cancel: C,
    k: Seq<char>,
)
    requires
        m.wf(),
        m.requests.len() > 0,
        m.results.len() < m.result_capacity || table::lookup(m.results, m.requests[0].id) is Some,
    ensures
        ({
            let after = m.hand_out(worker, cancel);
            let id = m.requests[0].id;
            &&& k != id ==> table::lookup(after.results, k) == table::lookup(m.results, k)
            &&& table::lookup(after.results, id) == Some(Seq::<TestResultView>::empty())
            &&& after.monitors == m.monitors
            &&& after.recent == m.recent
        }),
{
    let id = m.requests[0].id;
    let fresh = Seq::<TestResultView>::empty();
    let rest = table::without(m.results, id);
    let after = m.hand_out(worker, cancel);
    table::lemma_find(m.results, id);
    table::lemma_renew(m.results, id, fresh);
    table::lemma_without(m.results, id);
    table::lemma_put(rest, id, fresh);
    assert(after.results == table::put(rest, id, fresh));
    assert(table::lookup(rest, k) is None || table::lookup(rest, k) is Some);
}

/// Handing a request out while as many requests have reports kept as may drops the
/// one that was handed out first, and of all others nothing: not their reports, not
/// their monitors, not what was told of them.
pub proof fn law_only_oldest_dropped<S, C>(
    m: QueueModel<S, C>,
    worker: int,
    cancel: C,
    k: Seq<char>,
)
    requires
        m.wf(),
        m.requests.len() > 0,
        0 < m.results.len() == m.result_capacity,
        table::lookup(m.results, m.requests[0].id) is None,
    ensures
        ({
            let after = m.hand_out(worker, cancel);
            let id = m.requests[0].id;
            let oldest = m.results[0].0;
            &&& table::lookup(after.results, id) == Some(Seq::<TestResultView>::empty())
            &&& k == oldest ==> {
                &&& table::lookup(after.results, k) is None
                &&& table::lookup(after.monitors, k) is None
                &&& !after.recent.contains_key(k)
            }
            &&& k != oldest ==> {
                &&& k != id ==> table::lookup(after.results, k) == table::lookup(m.results, k)
                &&& table::lookup(after.monitors, k) == table::lookup(m.monitors, k)
                &&& after.recent.contains_key(k) <==> m.recent.contains_key(k)
                &&& m.recent.contains_key(k) ==> after.recent[k] == m.recent[k]
            }
        }),
{
    let id = m.requests[0].id;
    let oldest = m.results[0].0;
    let after = m.hand_out(worker, cancel);
    laws::law_oldest_result_dropped(m, worker, cancel);
    table::lemma_find(m.results, id);
    table::lemma_find(m.results, oldest);
    assert(after.monitors == table::without(m.monitors, oldest));
    table::lemma_without(m.monitors, oldest);
    assert(after.recent == m.recent.remove(oldest));
}

/// Where no reports may be kept at all, none are.
pub proof fn law_nothing_kept_without_capacity<S, C>(m: QueueModel<S, C>, worker: int, cancel: C)
    requires
        m.wf(),
        m.requests.len() > 0,
        m.result_capacity == 0,
    ensures
        m.hand_out(worker, cancel).results.len() == 0,
{
    assert(m.results.len() == 0);
    table::lemma_find(m.results, m.requests[0].id);
}

/// The requests that have reports kept stand in the order in which they were handed
/// out: the request that is handed out comes last, and the others keep their order.
pub proof fn law_kept_in_order_of_handing<S, C>(m: QueueModel<S, C>, worker: int, cancel: C)
    requires
        m.wf(),
        m.requests.len() > 0,
        m.result_capacity > 0,
    ensures
        ({
            let after = m.hand_out(worker, cancel).results;
            &&& after.len() > 0
            &&& after.last().0 == m.requests[0].id
            &&& turns::in_order(after.drop_last(), m.results)
        }),
{
    let id = m.requests[0].id;
    let fresh = Seq::<TestResultView>::empty();
    let rest = table::without(m.results, id);
    let results = rest.push((id, fresh));
    let after = m.hand_out(worker, cancel).results;
    table::lemma_find(m.results, id);
    turns::lemma_in_order_same(m.results);
    if let Some(p) = table::keys(m.results).index_of_first(id) {
        turns::lemma_in_order_remove(m.results, m.results, p);
    }
    if results.len() > m.result_capacity {
        assert(rest.len() > 0);
        turns::lemma_in_order_remove(rest, m.results, 0);
        assert(rest.remove(0) =~= after.drop_last());
    } else {
        assert(after.drop_last() =~= rest);
    }
}

/// Taking monitors in: the monitor of a request that one of the new ones names is the
/// last of those; the monitor of every other request stays as it was; and nothing
/// else changes.
pub proof fn law_watching<S, C>(m: QueueModel<S, C>, incoming: Seq<(Seq<char>, S)>, id: Seq<char>)
    requires
        m.wf(),
    ensures
        ({
            let after = m.watch(incoming);
            &&& (forall|k: int| 0 <= k < incoming.len() ==> (#[trigger] incoming[k]).0 != id)
                ==> table::lookup(after.monitors, id) == table::lookup(m.monitors, id)
            &&& forall|k: int|
                #![trigger incoming[k]]
                0 <= k < incoming.len() && incoming[k].0 == id && (forall|j: int|
                    k < j < incoming.len() ==> (#[trigger] incoming[j]).0 != id)
                    ==> table::lookup(after.monitors, id) == Some(incoming[k].1)
            &&& after == (QueueModel { monitors: after.monitors, ..m })
        }),
    decreases incoming.len(),
{
    m.lemma_watch(incoming);
    if incoming.len() > 0 {
        let init = incoming.drop_last();
        let before = m.watch(init);
        law_watching(m, init, id);
        table::lemma_put(before.monitors, incoming.last().0, incoming.last().1);
        assert(incoming[incoming.len() - 1] == incoming.last());
        assert forall|k: int| 0 <= k < init.len() implies (#[trigger] init[k]) == incoming[k] by {}
        assert forall|k: int|
            #![trigger incoming[k]]
            0 <= k < incoming.len() && incoming[k].0 == id && (forall|j: int|
                k < j < incoming.len() ==> (#[trigger] incoming[j]).0 != id) implies table::lookup(
            m.watch(incoming).monitors,
            id,
        ) == Some(incoming[k].1) by {
            if k < init.len() {
                assert(init[k] == incoming[k]);
            }
        }
        if forall|k: int| 0 <= k < incoming.len() ==> (#[trigger] incoming[k]).0 != id {
            assert(forall|k: int| 0 <= k < init.len() ==> (#[trigger] init[k]).0 != id);
            assert(incoming.last().0 != id);
        }
    }
}

/// A request waits at the first place that has its identifier, and does not wait if
/// no place has.
pub proof fn law_position<S, C>(m: QueueModel<S, C>, id: Seq<char>)
    ensures
        match m.position(id) {
            Some(p) => {
                &&& 0 <= p < m.requests.len()
                &&& m.requests[p].id == id
                &&& forall|j: int| 0 <= j < p ==> (#[trigger] m.requests[j]).id != id
            },
            None => forall|j: int| 0 <= j < m.requests.len() ==> (#[trigger] m.requests[j]).id
                != id,
        },
{
    let ids = model::request_ids(m.requests);
    ids.index_of_first_ensures(id);
    assert forall|j: int| 0 <= j < m.requests.len() implies (#[trigger] m.requests[j]).id
        == ids[j] by {}
    if m.position(id) is None {
        assert forall|j: int| 0 <= j < m.requests.len() implies (#[trigger] m.requests[j]).id
            != id by {
            assert(ids.contains(ids[j]));
        }
    }
}

/// What a monitor is told while its request waits: its rank, counted from 1, if that
/// is not what it was told last, and nothing else. It is not over, and nothing but
/// what was told last changes.
pub proof fn law_news_while_waiting<S, C>(m: QueueModel<S, C>, id: Seq<char>, p: int)
    requires
        m.wf(),
        table::lookup(m.results, id) is None,
        0 <= p < m.requests.len(),
        m.requests[p].id == id,
        forall|j: int| 0 <= j < p ==> (#[trigger] m.requests[j]).id != id,
    ensures
        ({
            let rank = RequestStatus::Queued((p + 1) as usize);
            let told_last = m.recent.contains_key(id) && m.recent[id] == rank;
            &&& told_last ==> m.news(id).len() == 0
            &&& !told_last ==> {
                &&& m.news(id).len() == 1
                &&& m.news(id)[0].id == id
                &&& m.news(id)[0].status matches RequestStatus::Queued(q) && q == p + 1
                &&& m.news(id)[0].test_result is None
            }
            &&& !m.over(id)
            &&& m.tell(id) == (QueueModel { recent: m.recent.insert(id, rank), ..m })
        }),
{
    law_position(m, id);
    let q = m.position(id)->0;
    if q < p {
        assert(m.requests[q].id != id);
    } else if p < q {
        assert(m.requests[p].id != id);
    }
    let rank = RequestStatus::Queued((p + 1) as usize);
    assert(m.rank(id) == rank);
    if m.rank_known(id) {
        assert(m.recent.insert(id, rank) =~= m.recent);
    }
}

/// What a monitor is told of a request that was handed out: each report that is kept,
/// once and in order. A report of a line is passed on as it is, as processing; any
/// other report says that the test has ended, with its time and its result code and
/// without output. It is over if the last report says that the test has ended. The
/// reports are taken.
pub proof fn law_news_of_running_test<S, C>(
    m: QueueModel<S, C>,
    id: Seq<char>,
    kept: Seq<TestResultView>,
    k: Seq<char>,
)
    requires
        m.wf(),
        table::lookup(m.results, id) == Some(kept),
    ensures
        m.news(id).len() == kept.len(),
        forall|i: int|
            #![trigger m.news(id)[i]]
            0 <= i < kept.len() ==> {
                let r = m.news(id)[i];
                &&& r.id == id
                &&& r.test_result is Some
                &&& kept[i].result_code == ResultCode::Processing ==> r.status
                    == RequestStatus::Processing && r.test_result->0 == kept[i]
                &&& kept[i].result_code != ResultCode::Processing ==> {
                    let t = r.test_result->0;
                    &&& r.status == RequestStatus::Completed
                    &&& t.id == kept[i].id
                    &&& t.point == kept[i].point
                    &&& t.total == kept[i].total
                    &&& t.output.len() == 0
                    &&& t.time_ms == kept[i].time_ms
                    &&& t.result_code == kept[i].result_code
                }
            },
        m.over(id) <==> kept.len() > 0 && kept[kept.len() - 1].result_code
            != ResultCode::Processing,
        table::lookup(m.tell(id).results, k) == if k == id {
            Some(Seq::<TestResultView>::empty())
        } else {
            table::lookup(m.results, k)
        },
        m.tell(id) == (QueueModel {
            results: m.tell(id).results,
            recent: if kept.len() > 0 && kept[kept.len() - 1].result_code
                == ResultCode::Processing {
                m.recent.insert(id, RequestStatus::Processing)
            } else {
                m.recent
            },
            ..m
        }),
{
    table::lemma_put(m.results, id, Seq::<TestResultView>::empty());
    assert forall|i: int| #![trigger m.news(id)[i]] 0 <= i < kept.len() implies m.news(id)[i]
        == model::response_of(id, kept[i]) by {}
}

/// What a monitor is told of a request that neither waits nor was handed out, or of
/// which the reports were dropped: that it is not found. Then it is over.
pub proof fn law_news_of_unknown_request<S, C>(m: QueueModel<S, C>, id: Seq<char>)
    requires
        m.wf(),
        table::lookup(m.results, id) is None,
        forall|j: int| 0 <= j < m.requests.len() ==> (#[trigger] m.requests[j]).id != id,
    ensures
        m.news(id).len() == 1,
        m.news(id)[0].id == id,
        m.news(id)[0].status == RequestStatus::NotFound,
        m.news(id)[0].test_result is None,
        m.over(id),
        m.tell(id) == (QueueModel {
            recent: m.recent.insert(id, RequestStatus::NotFound),
            ..m
        }),
{
    law_position(m, id);
}

/// What telling some of the monitors leaves of a request: what telling its own
/// monitor leaves, if that is among them, and what there was otherwise.
proof fn lemma_told_one<S, C>(m: QueueModel<S, C>, n: nat, id: Seq<char>)
    requires
        m.wf(),
        n <= m.monitors.len(),
    ensures
        ({
            let after = m.tell_first(n);
            let own = if table::keys(m.monitors).take(n as int).contains(id) {
                m.tell(id)
            } else {
                m
            };
            &&& table::lookup(after.results, id) == table::lookup(own.results, id)
            &&& after.recent.contains_key(id) == own.recent.contains_key(id)
            &&& after.recent.contains_key(id) ==> after.recent[id] == own.recent[id]
            &&& after == (QueueModel { results: after.results, recent: after.recent, ..m })
        }),
    decreases n,
{
    if n > 0 {
        let keys = table::keys(m.monitors);
        let before = m.tell_first((n - 1) as nat);
        let last = m.monitors[n - 1].0;
        m.lemma_tell_first((n - 1) as nat);
        lemma_told_one(m, (n - 1) as nat, id);
        assert(keys.take(n as int) =~= keys.take(n - 1).push(last));
        vstd::seq_lib::lemma_seq_contains_after_push(keys.take(n - 1), last, id);
        table::lemma_put(before.results, last, Seq::<TestResultView>::empty());
        table::lemma_put(m.results, id, Seq::<TestResultView>::empty());
        if last == id && keys.take(n - 1).contains(id) {
            let i = keys.take(n - 1).index_of(id);
            assert(keys[i] == keys[n - 1]);
        }
    }
}

/// A round of the monitors, seen from one request. The new monitors are taken in as
/// [`law_watching`] says; what waits, what the workers are doing and what can be
/// canceled does not change.
///
/// - Of a request that is not monitored nothing is told and nothing is taken.
/// - Of a monitored request that was handed out every kept report is told, once and in
///   order, and none is kept any more; it ends with the round if the last of them says
///   that the test has ended.
/// - Of a monitored request that waits the rank is told, unless it was told last.
/// - Of any other monitored request it is told that it is not found, and it ends with
///   the round.
pub proof fn law_monitor_round<S, C>(
    m: QueueModel<S, C>,
    monitors: Seq<(String, S)>,
    after: QueueModel<S, C>,
    round: MonitorRound,
    id: Seq<char>,
)
    requires
        m.wf(),
        queue::reported(m, monitors, after, round),
    ensures
        ({
            let told = queue::response_views(round.responses@).filter(
                |r: ResponseView| r.id == id,
            );
            let ended = exists|i: int|
                0 <= i < round.finished@.len() && (#[trigger] round.finished@[i])@ == id;
            let monitored = table::lookup(after.monitors, id) is Some;
            let kept = table::lookup(m.results, id);
            let waits = exists|p: int|
                0 <= p < m.requests.len() && (#[trigger] m.requests[p]).id == id;
            &&& (forall|k: int| 0 <= k < monitors.len() ==> (#[trigger] monitors[k]).0@ != id)
                ==> table::lookup(after.monitors, id) == table::lookup(m.monitors, id)
            &&& forall|k: int|
                #![trigger monitors[k]]
                0 <= k < monitors.len() && monitors[k].0@ == id && (forall|j: int|
                    k < j < monitors.len() ==> (#[trigger] monitors[j]).0@ != id)
                    ==> table::lookup(after.monitors, id) == Some(monitors[k].1)
            &&& after.requests == m.requests
            &&& after.workers == m.workers
            &&& after.cancels == m.cancels
            &&& after.capacity == m.capacity
            &&& after.result_capacity == m.result_capacity
            &&& !monitored ==> {
                &&& told.len() == 0
                &&& !ended
                &&& table::lookup(after.results, id) == kept
            }
            &&& monitored && kept is Some ==> {
                &&& told.len() == kept->0.len()
                &&& forall|i: int|
                    #![trigger told[i]]
                    0 <= i < told.len() ==> {
                        let was = kept->0[i];
                        let t = told[i].test_result->0;
                        &&& told[i].test_result is Some
                        &&& was.result_code == ResultCode::Processing ==> told[i].status
                            == RequestStatus::Processing && t == was
                        &&& was.result_code != ResultCode::Processing ==> told[i].status
                            == RequestStatus::Completed && t.output.len() == 0 && t.time_ms
                            == was.time_ms && t.result_code == was.result_code && t.id == was.id
                    }
                &&& table::lookup(after.results, id) == Some(Seq::<TestResultView>::empty())
                &&& ended <==> kept->0.len() > 0 && kept->0[kept->0.len() - 1].result_code
                    != ResultCode::Processing
            }
            &&& monitored && kept is None && waits ==> {
                &&& !ended
                &&& told.len() <= 1
                &&& forall|p: int|
                    #![trigger m.requests[p]]
                    0 <= p < m.requests.len() && m.requests[p].id == id && (forall|j: int|
                        0 <= j < p ==> (#[trigger] m.requests[j]).id != id) ==> {
                        let rank = RequestStatus::Queued((p + 1) as usize);
                        &&& told.len() == 0 <==> m.recent.contains_key(id) && m.recent[id] == rank
                        &&& told.len() == 1 ==> {
                            &&& told[0].status == rank
                            &&& told[0].test_result is None
                        }
                        &&& after.recent.contains_key(id) && after.recent[id] == rank
                    }
            }
            &&& monitored && kept is None && !waits ==> {
                &&& ended
                &&& told.len() == 1
                &&& told[0].status == RequestStatus::NotFound
                &&& told[0].test_result is None
            }
        }),
{
    let incoming = queue::monitor_views(monitors);
    let watched = m.watch(incoming);
    let n = watched.monitors.len();
    let kept = table::lookup(m.results, id);
    let told = queue::response_views(round.responses@).filter(|r: ResponseView| r.id == id);
    let monitored = table::lookup(after.monitors, id) is Some;
    m.lemma_watch(incoming);
    law_watching(m, incoming, id);
    watched.lemma_tell_first(n);
    lemma_told_one(watched, n, id);
    assert(after == watched.tell_first(n));
    assert forall|k: int| 0 <= k < monitors.len() implies (#[trigger] incoming[k]) == (
        monitors[k].0@,
        monitors[k].1,
    ) by {}
    assert forall|k: int|
        #![trigger monitors[k]]
        0 <= k < monitors.len() && monitors[k].0@ == id && (forall|j: int|
            k < j < monitors.len() ==> (#[trigger] monitors[j]).0@ != id) implies table::lookup(
        after.monitors,
        id,
    ) == Some(monitors[k].1) by {
        assert(incoming[k].0 == id);
        assert forall|j: int| k < j < incoming.len() implies (#[trigger] incoming[j]).0 != id by {
            assert(monitors[j].0@ != id);
        }
    }
    laws::law_each_monitor_gets_its_news(watched, id);
    laws::law_finished(watched, id);
    let ids = text::texts(round.finished@);
    let ended = exists|i: int|
        0 <= i < round.finished@.len() && (#[trigger] round.finished@[i])@ == id;
    assert(ended <==> ids.contains(id)) by {
        if ids.contains(id) {
            let i = ids.index_of(id);
            assert(round.finished@[i]@ == id);
        }
        if ended {
            let i = choose|i: int|
                0 <= i < round.finished@.len() && (#[trigger] round.finished@[i])@ == id;
            assert(ids[i] == id);
        }
    }
    let keys = table::keys(watched.monitors);
    assert(keys.take(n as int) =~= keys);
    keys.index_of_first_ensures(id);
    table::lemma_find(watched.monitors, id);
    assert(monitored <==> keys.contains(id));
    let waits = exists|p: int| 0 <= p < m.requests.len() && (#[trigger] m.requests[p]).id == id;
    if monitored {
        match kept {
            Some(rs) => {
                law_news_of_running_test(watched, id, rs, id);
            },
            None => {
                law_position(watched, id);
                match watched.position(id) {
                    Some(p) => {
                        assert(m.requests[p].id == id);
                        law_news_while_waiting(watched, id, p);
                        assert forall|q: int|
                            #![trigger m.requests[q]]
                            0 <= q < m.requests.len() && m.requests[q].id == id && (forall|j: int|
                                0 <= j < q ==> (#[trigger] m.requests[j]).id != id) implies q
                            == p by {
                            if q < p {
                                assert(watched.requests[q].id != id);
                            } else if p < q {
                                assert(m.requests[p].id != id);
                            }
                        }
                    },
                    None => {
                        assert(!waits);
                        law_news_of_unknown_request(watched, id);
                    },
                }
            },
        }
    }
}

/// Giving a request up: its monitor, its reports and its cancel channel go, and the
/// first waiting request with its identifier, if there is one; everything of every
/// other request stays.
pub proof fn law_giving_up<S, C>(m: QueueModel<S, C>, id: Seq<char>, k: Seq<char>)
    requires
        m.wf(),
    ensures
        ({
            let after = m.close(id);
            &&& table::lookup(after.monitors, k) == if k == id {
                None
            } else {
                table::lookup(m.monitors, k)
            }
            &&& table::lookup(after.results, k) == if k == id {
                None
            } else {
                table::lookup(m.results, k)
            }
            &&& table::lookup(after.cancels, k) == if k == id {
                None
            } else {
                table::lookup(m.cancels, k)
            }
            &&& (forall|j: int| 0 <= j < m.requests.len() ==> (#[trigger] m.requests[j]).id != id)
                ==> after.requests == m.requests
            &&& forall|p: int|
                #![trigger m.requests[p]]
                0 <= p < m.requests.len() && m.requests[p].id == id && (forall|j: int|
                    0 <= j < p ==> (#[trigger] m.requests[j]).id != id) ==> after.requests
                    == m.requests.remove(p)
            &&& after == (QueueModel {
                monitors: after.monitors,
                results: after.results,
                cancels: after.cancels,
                requests: after.requests,
                ..m
            })
        }),
{
    table::lemma_without(m.monitors, id);
    table::lemma_without(m.results, id);
    table::lemma_without(m.cancels, id);
    law_position(m, id);
    assert forall|p: int|
        #![trigger m.requests[p]]
        0 <= p < m.requests.len() && m.requests[p].id == id && (forall|j: int|
            0 <= j < p ==> (#[trigger] m.requests[j]).id != id) implies m.close(id).requests
        == m.requests.remove(p) by {
        let q = m.position(id)->0;
        if q < p {
            assert(m.requests[q].id != id);
        } else if p < q {
            assert(m.requests[p].id != id);
        }
    }
}

/// Giving requests up takes no request with another identifier out of those that
/// wait, and changes neither the workers, nor what was told, nor what may be kept.
pub proof fn law_giving_up_leaves_others<S, C>(m: QueueModel<S, C>, ids: Seq<Seq<char>>)
    requires
        m.wf(),
    ensures
        ({
            let after = m.close_all(ids);
            let others = |r: RequestView| !ids.contains(r.id);
            &&& after.requests.filter(others) == m.requests.filter(others)
            &&& after.workers == m.workers
            &&& after.recent == m.recent
            &&& after.capacity == m.capacity
            &&& after.result_capacity == m.result_capacity
        }),
{
    let others = |r: RequestView| !ids.contains(r.id);
    assert(ids.take(ids.len() as int) =~= ids);
    lemma_others_wait(m, ids, ids.len() as int, others);
}

proof fn lemma_others_wait<S, C>(
    m: QueueModel<S, C>,
    ids: Seq<Seq<char>>,
    n: int,
    others: spec_fn(RequestView) -> bool,
)
    requires
        m.wf(),
        0 <= n <= ids.len(),
        forall|r: RequestView| #[trigger] others(r) ==> !ids.contains(r.id),
    ensures
        ({
            let after = m.close_all(ids.take(n));
            &&& after.wf()
            &&& after.requests.filter(others) == m.requests.filter(others)
            &&& after.workers == m.workers
            &&& after.recent == m.recent
            &&& after.capacity == m.capacity
            &&& after.result_capacity == m.result_capacity
        }),
    decreases n,
{
    if n > 0 {
        let before = m.close_all(ids.take(n - 1));
        let id = ids[n - 1];
        lemma_others_wait(m, ids, n - 1, others);
        assert(ids.take(n).drop_last() =~= ids.take(n - 1));
        assert(ids.take(n).last() == id);
        before.lemma_close_wf(id);
        law_position(before, id);
        if let Some(p) = before.position(id) {
            assert(ids.contains(id));
            assert(!others(before.requests[p]));
            lemma_filter_remove(before.requests, p, others);
        }
    }
}

/// Removing an element that does not pass a filter does not change what passes.
proof fn lemma_filter_remove<A>(s: Seq<A>, p: int, pred: spec_fn(A) -> bool)
    requires
        0 <= p < s.len(),
        !pred(s[p]),
    ensures
        s.remove(p).filter(pred) == s.filter(pred),
{
    let front = s.take(p);
    let back = s.skip(p + 1);
    assert(s =~= front.push(s[p]) + back);
    assert(s.remove(p) =~= front + back);
    Seq::filter_distributes_over_add(front, back, pred);
    Seq::filter_distributes_over_add(front.push(s[p]), back, pred);
    assert(front.push(s[p]).filter(pred) == front.filter(pred)) by {
        reveal(Seq::filter);
        assert(front.push(s[p]).drop_last() =~= front);
    }
}

/// Which workers are idle after the first of them were heard.
proof fn lemma_idle_after<S, C>(
    m: QueueModel<S, C>,
    events: Seq<EventsView>,
    cancels: Seq<C>,
    w: int,
)
    requires
        m.wf(),
        events.len() <= m.workers.len(),
        0 <= w < m.workers.len(),
    ensures
        ({
            let (after, handed) = m.serve(events, cancels);
            after.workers[w] == WorkerStatus::Idle <==> (m.workers[w] == WorkerStatus::Idle || (w
                < events.len() && events[w].ready)) && forall|k: int|
                0 <= k < handed.len() ==> (#[trigger] handed[k]).0 != w
        }),
    decreases events.len(),
{
    if events.len() > 0 {
        let init = events.drop_last();
        let (before, first) = m.serve(init, cancels);
        let (after, handed) = m.serve(events, cancels);
        let last = events.len() - 1;
        let heard = before.hear(last, events.last());
        lemma_idle_after(m, init, cancels, w);
        m.lemma_serve(init, cancels);
        before.lemma_hear(last, events.last());
        if w < last {
            assert(init[w] == events[w]);
        }
        assert forall|k: int| 0 <= k < first.len() implies (#[trigger] handed[k]) == first[k] by {}
        if heard.hands_out(last) {
            assert(handed[first.len() as int].0 == last);
            if forall|k: int| 0 <= k < first.len() ==> (#[trigger] first[k]).0 != w {
                assert forall|k: int| 0 <= k < handed.len() && w != last implies (
                #[trigger] handed[k]).0 != w by {
                    if k < first.len() {
                        assert(handed[k] == first[k]);
                    }
                }
            } else {
                let k = choose|k: int| 0 <= k < first.len() && (#[trigger] first[k]).0 == w;
                assert(handed[k].0 == w);
            }
        }
    } else {
        assert(m.serve(events, cancels).1.len() == 0);
    }
}

/// The place of the last request with an identifier among those handed out.
spec fn last_handed(handed: Seq<(int, RequestView)>, id: Seq<char>) -> Option<int>
    decreases handed.len(),
{
    if handed.len() == 0 {
        None
    } else if handed.last().1.id == id {
        Some(handed.len() - 1)
    } else {
        last_handed(handed.drop_last(), id)
    }
}

proof fn lemma_last_handed(handed: Seq<(int, RequestView)>, id: Seq<char>)
    ensures
        match last_handed(handed, id) {
            Some(k) => {
                &&& 0 <= k < handed.len()
                &&& handed[k].1.id == id
                &&& forall|j: int| k < j < handed.len() ==> (#[trigger] handed[j]).1.id != id
            },
            None => forall|j: int| 0 <= j < handed.len() ==> (#[trigger] handed[j]).1.id != id,
        },
    decreases handed.len(),
{
    if handed.len() > 0 && handed.last().1.id != id {
        let init = handed.drop_last();
        lemma_last_handed(init, id);
        assert forall|j: int| 0 <= j < init.len() implies (#[trigger] handed[j]) == init[j] by {}
    }
}

/// Through which channel a request can be canceled after the workers were served.
proof fn lemma_channels_after<S, C>(
    m: QueueModel<S, C>,
    events: Seq<EventsView>,
    cancels: Seq<C>,
    id: Seq<char>,
)
    requires
        m.wf(),
        events.len() <= m.workers.len(),
    ensures
        table::lookup(m.serve(events, cancels).0.cancels, id) == match last_handed(
            m.serve(events, cancels).1,
            id,
        ) {
            Some(k) => Some(cancels[k]),
            None => table::lookup(m.cancels, id),
        },
    decreases events.len(),
{
    if events.len() > 0 {
        let init = events.drop_last();
        let (before, first) = m.serve(init, cancels);
        let (after, handed) = m.serve(events, cancels);
        let last = events.len() - 1;
        let heard = before.hear(last, events.last());
        lemma_channels_after(m, init, cancels, id);
        m.lemma_serve(init, cancels);
        before.lemma_hear(last, events.last());
        if heard.hands_out(last) {
            let n = first.len() as int;
            let next = heard.requests[0].id;
            table::lemma_put(heard.cancels, next, cancels[n]);
            assert(after.cancels == table::put(heard.cancels, next, cancels[n]));
            assert(handed.drop_last() =~= first);
            assert(handed.last().1.id == next);
        }
    }
}

/// In a round of the workers the waiting requests are handed out in order, each to
/// one worker that was idle or said that it is ready, lower workers first, until no
/// request waits or no such worker is left.
pub proof fn law_requests_to_workers<S, C, R, F: Fn() -> (C, R)>(
    m: QueueModel<S, C>,
    events: Seq<WorkerEvents>,
    open: F,
    after: QueueModel<S, C>,
    dispatches: Seq<Dispatch<R>>,
    cancels: Seq<C>,
)
    requires
        m.wf(),
        events.len() == m.workers.len(),
        queue::served(m, queue::event_views(events), open, after, dispatches, cancels),
    ensures
        dispatches.len() <= m.requests.len(),
        forall|k: int|
            0 <= k < dispatches.len() ==> (#[trigger] dispatches[k]).request@ == m.requests[k],
        after.requests == m.requests.skip(dispatches.len() as int),
        forall|k: int|
            #![trigger dispatches[k]]
            0 <= k < dispatches.len() ==> {
                &&& dispatches[k].worker < m.workers.len()
                &&& m.workers[dispatches[k].worker as int] == WorkerStatus::Idle
                    || events[dispatches[k].worker as int].ready
            },
        forall|j: int, k: int|
            0 <= j < k < dispatches.len() ==> (#[trigger] dispatches[j]).worker < (
            #[trigger] dispatches[k]).worker,
        after.requests.len() > 0 ==> forall|w: int|
            0 <= w < after.workers.len() ==> #[trigger] after.workers[w] == WorkerStatus::Busy,
        after.capacity == m.capacity,
        after.result_capacity == m.result_capacity,
{
    let views = queue::event_views(events);
    let handed = m.serve(views, cancels).1;
    let n = dispatches.len();
    assert(handed == queue::dispatch_views(dispatches));
    m.lemma_serve(views, cancels);
    let out = laws::handed_requests(handed);
    assert forall|k: int| 0 <= k < n implies (#[trigger] dispatches[k]).request@
        == m.requests[k] by {
        assert(handed[k] == (dispatches[k].worker as int, dispatches[k].request@));
        assert(out[k] == handed[k].1);
        assert((out + after.requests)[k] == out[k]);
    }
    assert(after.requests =~= m.requests.skip(n as int)) by {
        assert forall|i: int| 0 <= i < after.requests.len() implies after.requests[i]
            == m.requests[n + i] by {
            assert((out + after.requests)[n + i] == after.requests[i]);
        }
    }
    assert forall|j: int, k: int| 0 <= j < k < n implies (#[trigger] dispatches[j]).worker < (
    #[trigger] dispatches[k]).worker by {
        assert(handed[j].0 < handed[k].0);
    }
    assert forall|k: int| #![trigger dispatches[k]] 0 <= k < n implies {
        &&& dispatches[k].worker < m.workers.len()
        &&& m.workers[dispatches[k].worker as int] == WorkerStatus::Idle
            || events[dispatches[k].worker as int].ready
    } by {
        assert(0 <= handed[k].0 < views.len());
        assert(views[handed[k].0] == events[handed[k].0]@);
    }
}

/// After a round of the workers one is idle exactly if it was idle or said that it is
/// ready, and got nothing.
pub proof fn law_idle_workers<S, C, R, F: Fn() -> (C, R)>(
    m: QueueModel<S, C>,
    events: Seq<WorkerEvents>,
    open: F,
    after: QueueModel<S, C>,
    dispatches: Seq<Dispatch<R>>,
    cancels: Seq<C>,
    w: int,
)
    requires
        m.wf(),
        events.len() == m.workers.len(),
        queue::served(m, queue::event_views(events), open, after, dispatches, cancels),
        0 <= w < m.workers.len(),
    ensures
        after.workers.len() == m.workers.len(),
        after.workers[w] == WorkerStatus::Idle <==> (m.workers[w] == WorkerStatus::Idle
            || events[w].ready) && forall|k: int|
            0 <= k < dispatches.len() ==> (#[trigger] dispatches[k]).worker != w,
{
    let views = queue::event_views(events);
    let handed = m.serve(views, cancels).1;
    assert(handed == queue::dispatch_views(dispatches));
    m.lemma_serve(views, cancels);
    lemma_idle_after(m, views, cancels, w);
    assert(views[w] == events[w]@);
    if forall|k: int| 0 <= k < dispatches.len() ==> (#[trigger] dispatches[k]).worker != w {
        assert forall|k: int| 0 <= k < handed.len() implies (#[trigger] handed[k]).0 != w by {
            assert(dispatches[k].worker != w);
        }
    } else {
        let k = choose|k: int|
            0 <= k < dispatches.len() && (#[trigger] dispatches[k]).worker == w;
        assert(handed[k].0 == w);
    }
}

/// Each request goes to its worker with the receiving end of a cancel channel whose
/// other end the queue keeps for that request; the channels of requests that are not
/// handed out stay as they were.
pub proof fn law_cancel_channels<S, C, R, F: Fn() -> (C, R)>(
    m: QueueModel<S, C>,
    events: Seq<WorkerEvents>,
    open: F,
    after: QueueModel<S, C>,
    dispatches: Seq<Dispatch<R>>,
    cancels: Seq<C>,
    id: Seq<char>,
)
    requires
        m.wf(),
        events.len() == m.workers.len(),
        queue::served(m, queue::event_views(events), open, after, dispatches, cancels),
    ensures
        (forall|k: int| 0 <= k < dispatches.len() ==> (#[trigger] dispatches[k]).request.id@ != id)
            ==> table::lookup(after.cancels, id) == table::lookup(m.cancels, id),
        forall|k: int|
            #![trigger dispatches[k]]
            0 <= k < dispatches.len() && dispatches[k].request.id@ == id && (forall|j: int|
                k < j < dispatches.len() ==> (#[trigger] dispatches[j]).request.id@ != id) ==> {
                &&& table::lookup(after.cancels, id) is Some
                &&& call_ensures(
                    open,
                    (),
                    (table::lookup(after.cancels, id)->0, dispatches[k].cancel_receiver),
                )
            },
{
    let views = queue::event_views(events);
    let handed = m.serve(views, cancels).1;
    assert(handed == queue::dispatch_views(dispatches));
    lemma_channels_after(m, views, cancels, id);
    lemma_last_handed(handed, id);
    assert forall|k: int| 0 <= k < handed.len() implies (#[trigger] handed[k]).1.id
        == dispatches[k].request.id@ by {}
    match last_handed(handed, id) {
        None => {
            assert forall|k: int| 0 <= k < dispatches.len() implies (
            #[trigger] dispatches[k]).request.id@ != id by {
                assert(handed[k].1.id != id);
            }
        },
        Some(last) => {
            assert(dispatches[last].request.id@ == id);
            assert(queue::opened(open, cancels[last], dispatches[last].cancel_receiver));
            assert forall|k: int|
                #![trigger dispatches[k]]
                0 <= k < dispatches.len() && dispatches[k].request.id@ == id && (forall|j: int|
                    k < j < dispatches.len() ==> (#[trigger] dispatches[j]).request.id@
                        != id) implies k == last by {
                if last < k {
                    assert(handed[k].1.id != id);
                }
            }
        },
    }
}

/// How many entries at the front of a sequence are too many.
pub open spec fn surplus(len: nat, capacity: nat) -> int {
    if len > capacity {
        len - capacity
    } else {
        0
    }
}

/// In a turn exactly the requests beyond the capacity are dropped, those that were
/// handed out first before others: of the requests that had reports kept, followed by
/// those that are handed out, the last ones stay, as many as may. The monitors of
/// the dropped ones, and what was told of them, go; those of all others stay as they
/// were. So nothing at all is dropped while there is room.
pub proof fn law_dropped_in_turn<S, C>(
    m: QueueModel<S, C>,
    events: Seq<EventsView>,
    cancels: Seq<C>,
    k: Seq<char>,
)
    requires
        m.wf(),
        events.len() <= m.workers.len(),
        (table::keys(m.results) + model::request_ids(
            laws::handed_requests(m.serve(events, cancels).1),
        )).no_duplicates(),
    ensures
        ({
            let (after, handed) = m.serve(events, cancels);
            let all = table::keys(m.results) + model::request_ids(laws::handed_requests(handed));
            let gone = surplus(all.len(), m.result_capacity);
            &&& after.results.len() == all.len() - gone
            &&& forall|i: int|
                0 <= i < after.results.len() ==> (#[trigger] after.results[i]).0 == all[gone + i]
            &&& all.take(gone).contains(k) ==> {
                &&& table::lookup(after.monitors, k) is None
                &&& !after.recent.contains_key(k)
            }
            &&& !all.take(gone).contains(k) ==> {
                &&& table::lookup(after.monitors, k) == table::lookup(m.monitors, k)
                &&& after.recent.contains_key(k) <==> m.recent.contains_key(k)
                &&& m.recent.contains_key(k) ==> after.recent[k] == m.recent[k]
            }
        }),
    decreases events.len(),
{
    let (after, handed) = m.serve(events, cancels);
    let all = table::keys(m.results) + model::request_ids(laws::handed_requests(handed));
    let gone = surplus(all.len(), m.result_capacity);
    if events.len() == 0 {
        assert(all =~= table::keys(m.results));
        assert(gone == 0);
        assert(all.take(0) =~= Seq::<Seq<char>>::empty());
    } else {
        let init = events.drop_last();
        let (before, first) = m.serve(init, cancels);
        let w = events.len() - 1;
        let heard = before.hear(w, events.last());
        let all0 = table::keys(m.results) + model::request_ids(laws::handed_requests(first));
        let gone0 = surplus(all0.len(), m.result_capacity);
        m.lemma_serve(init, cancels);
        before.lemma_hear(w, events.last());
        before.lemma_record_all(events.last().results);
        let ids = table::keys(heard.results);
        assert(ids == table::keys(before.results));
        if heard.hands_out(w) {
            let id = heard.requests[0].id;
            let cancel = cancels[first.len() as int];
            assert(model::request_ids(laws::handed_requests(handed)) =~= model::request_ids(
                laws::handed_requests(first),
            ).push(id));
            assert(all =~= all0.push(id));
            lemma_front_no_duplicates(all0, id);
            law_dropped_in_turn(m, init, cancels, k);
            assert(ids =~= all0.skip(gone0)) by {
                assert forall|i: int| 0 <= i < ids.len() implies ids[i] == all0[gone0 + i] by {
                    assert(before.results[i].0 == all0[gone0 + i]);
                }
            }
            table::lemma_find(heard.results, id);
            assert(table::lookup(heard.results, id) is None) by {
                if table::lookup(heard.results, id) is Some {
                    let i = ids.index_of_first(id)->0;
                    assert(ids[i] == heard.results[i].0);
                    assert(all0[gone0 + i] == id);
                    assert(all0.contains(id));
                }
            }
            let fresh = Seq::<TestResultView>::empty();
            let results = heard.results.push((id, fresh));
            assert(table::without(heard.results, id) == heard.results);
            assert forall|i: int| 0 <= i < results.len() implies (#[trigger] results[i]).0
                == all[gone0 + i] by {
                if i < ids.len() {
                    assert(ids[i] == heard.results[i].0);
                }
            }
            if results.len() > heard.result_capacity {
                let oldest = results[0].0;
                assert(after.results == results.drop_first());
                assert(gone == gone0 + 1);
                assert(oldest == all[gone0]);
                assert(all.take(gone) =~= all0.take(gone0).push(oldest));
                vstd::seq_lib::lemma_seq_contains_after_push(all0.take(gone0), oldest, k);
                table::lemma_without(heard.monitors, oldest);
                assert(after.monitors == table::without(heard.monitors, oldest));
                assert(after.recent == heard.recent.remove(oldest));
                assert forall|i: int| 0 <= i < after.results.len() implies (
                #[trigger] after.results[i]).0 == all[gone + i] by {
                    assert(after.results[i] == results[i + 1]);
                }
            } else {
                assert(after.results == results);
                assert(gone == gone0 == 0);
                assert(all.take(gone) =~= all0.take(gone0));
            }
        } else {
            assert(handed == first);
            law_dropped_in_turn(m, init, cancels, k);
            assert forall|i: int| 0 <= i < after.results.len() implies (
            #[trigger] after.results[i]).0 == all[gone + i] by {
                assert(ids[i] == after.results[i].0);
                assert(table::keys(before.results)[i] == before.results[i].0);
            }
        }
    }
}

/// A sequence that repeats nothing repeats nothing without its last element, which
/// it does not hold elsewhere.
proof fn lemma_front_no_duplicates<A>(front: Seq<A>, last: A)
    requires
        front.push(last).no_duplicates(),
    ensures
        front.no_duplicates(),
        !front.contains(last),
{
    let s = front.push(last);
    assert forall|i: int, j: int| 0 <= i < front.len() && 0 <= j < front.len() && i != j implies
        front[i] != front[j] by {
        assert(s[i] != s[j]);
    }
    if front.contains(last) {
        let i = front.index_of(last);
        assert(s[i] == s[front.len() as int]);
    }
}

/// While there is room for the reports of all requests, a turn keeps everything: of
/// every request that was handed out earlier, the reports that were kept, followed by
/// those of the turn.
pub proof fn law_all_kept_below_capacity<S, C>(
    m: QueueModel<S, C>,
    events: Seq<EventsView>,
    cancels: Seq<C>,
    k: Seq<char>,
)
    requires
        m.wf(),
        events.len() <= m.workers.len(),
        (table::keys(m.results) + model::request_ids(
            laws::handed_requests(m.serve(events, cancels).1),
        )).no_duplicates(),
        m.results.len() + m.serve(events, cancels).1.len() <= m.result_capacity,
        table::lookup(m.results, k) is Some,
    ensures
        table::lookup(m.serve(events, cancels).0.results, k) == Some(
            table::lookup(m.results, k)->0 + laws::all_reports(events).filter(
                |r: TestResultView| r.id == k,
            ),
        ),
{
    let (after, handed) = m.serve(events, cancels);
    let ids = model::request_ids(laws::handed_requests(handed));
    let keys = table::keys(m.results);
    let all = keys + ids;
    law_dropped_in_turn(m, events, cancels, k);
    table::lemma_find(m.results, k);
    let i = keys.index_of_first(k)->0;
    assert(all[i] == k);
    if ids.contains(k) {
        let j = ids.index_of(k);
        assert(all[keys.len() + j] == k);
    }
    laws::law_turn_keeps_reports(m, events, cancels, k);
    table::lemma_find(after.results, k);
    assert(after.results[i].0 == k);
}

/// As long as no request waits twice, none of those that were given up waits any more.
pub proof fn law_given_up_do_not_wait<S, C>(m: QueueModel<S, C>, ids: Seq<Seq<char>>)
    requires
        model::request_ids(m.requests).no_duplicates(),
    ensures
        model::request_ids(m.close_all(ids).requests).no_duplicates(),
        forall|j: int|
            0 <= j < m.close_all(ids).requests.len() ==> !ids.contains(
                (#[trigger] m.close_all(ids).requests[j]).id,
            ),
    decreases ids.len(),
{
    if ids.len() > 0 {
        let init = ids.drop_last();
        let id = ids.last();
        let before = m.close_all(init);
        let after = m.close_all(ids);
        let was = model::request_ids(before.requests);
        let now = model::request_ids(after.requests);
        law_given_up_do_not_wait(m, init);
        law_position(before, id);
        let at = match before.position(id) {
            Some(p) => p,
            None => before.requests.len() as int,
        };
        assert(before.position(id) is Some ==> after.requests == before.requests.remove(at));
        assert forall|i: int| 0 <= i < after.requests.len() implies (#[trigger] after.requests[i])
            == before.requests[if i < at { i } else { i + 1 }] by {}
        assert forall|i: int, j: int| 0 <= i < now.len() && 0 <= j < now.len() && i != j implies
            now[i] != now[j] by {
            let i0 = if i < at { i } else { i + 1 };
            let j0 = if j < at { j } else { j + 1 };
            assert(now[i] == after.requests[i].id && now[j] == after.requests[j].id);
            assert(was[i0] != was[j0]);
        }
        assert(ids =~= init.push(id));
        assert forall|j: int| 0 <= j < after.requests.len() implies !ids.contains(
            (#[trigger] after.requests[j]).id,
        ) by {
            let j0 = if j < at { j } else { j + 1 };
            let r = before.requests[j0];
            assert(!init.contains(r.id));
            vstd::seq_lib::lemma_seq_contains_after_push(init, id, r.id);
            if at < before.requests.len() {
                assert(was[j0] != was[at]);
            }
        }
    }
}

/// Serving the workers notes nothing as told.
pub proof fn lemma_recent_after<S, C>(
    m: QueueModel<S, C>,
    events: Seq<EventsView>,
    cancels: Seq<C>,
    id: Seq<char>,
)
    requires
        m.wf(),
        events.len() <= m.workers.len(),
    ensures
        ({
            let after = m.serve(events, cancels).0;
            after.recent.contains_key(id) ==> m.recent.contains_key(id) && after.recent[id]
                == m.recent[id]
        }),
    decreases events.len(),
{
    if events.len() > 0 {
        let init = events.drop_last();
        let (before, first) = m.serve(init, cancels);
        lemma_recent_after(m, init, cancels, id);
        m.lemma_serve(init, cancels);
        before.lemma_hear(events.len() - 1, events.last());
    }
}

} // verus!
