//! What holds of the queue, the workers and the uploads as a whole.

use vstd::prelude::*;

use crate::server;
use crate::server::model;
use crate::server::model::{EventsView, QueueModel, RequestView, ResponseView};
use crate::server::queue::{RequestStatus, WorkerStatus};
use crate::server::upload;
use crate::server::upload::{BodyEvent, UploadPhase, UploadView};
use crate::server::worker;
use crate::server::worker::{
    ClockReading, ResultCode, RunEvent, RunOutcomeView, RunStepView, TestResultView,
};
use crate::table;
use crate::text;

verus! {

/// The requests that were handed out, without their workers.
pub open spec fn handed_requests(handed: Seq<(int, RequestView)>) -> Seq<RequestView> {
    handed.map_values(|h: (int, RequestView)| h.1)
}

impl<S, C> QueueModel<S, C> {
    /// Whether a cancel channel is that of one of the given requests.
    pub open spec fn cancels_one_of(self, ids: Seq<Seq<char>>, cancel: C) -> bool {
        exists|id: Seq<char>| #[trigger]
            ids.contains(id) && table::lookup(self.cancels, id) == Some(cancel)
    }

    /// The requests among those given up that have a cancel channel, each once, in
    /// the order in which they are first named.
    pub open spec fn canceled(self, ids: Seq<Seq<char>>) -> Seq<Seq<char>>
        decreases ids.len(),
    {
        if ids.len() == 0 {
            Seq::empty()
        } else {
            let before = self.canceled(ids.drop_last());
            if !ids.drop_last().contains(ids.last()) && table::lookup(
                self.cancels,
                ids.last(),
            ) is Some {
                before.push(ids.last())
            } else {
                before
            }
        }
    }

    /// Keeping reports changes nothing but the reports.
    pub proof fn lemma_record_all(self, rs: Seq<TestResultView>)
        requires
            self.wf(),
        ensures
            self.record_all(rs).wf(),
            self.record_all(rs) == (QueueModel { results: self.record_all(rs).results, ..self }),
            table::keys(self.record_all(rs).results) == table::keys(self.results),
        decreases rs.len(),
    {
        if rs.len() > 0 {
            let before = self.record_all(rs.drop_last());
            let r = rs.last();
            self.lemma_record_all(rs.drop_last());
            table::lemma_find(before.results, r.id);
            if let Some(kept) = table::lookup(before.results, r.id) {
                table::lemma_put(before.results, r.id, kept.push(r));
                assert(table::keys(before.record(r).results) =~= table::keys(before.results));
            }
        }
    }

    /// Hearing a worker changes nothing but the reports and what that worker is doing.
    pub proof fn lemma_hear(self, worker: int, events: EventsView)
        requires
            self.wf(),
            0 <= worker < self.workers.len(),
        ensures
            self.hear(worker, events).wf(),
            self.hear(worker, events).requests == self.requests,
            self.hear(worker, events).capacity == self.capacity,
            self.hear(worker, events).result_capacity == self.result_capacity,
            self.hear(worker, events).monitors == self.monitors,
            self.hear(worker, events).recent == self.recent,
            self.hear(worker, events).cancels == self.cancels,
            self.hear(worker, events).workers == if events.ready {
                self.workers.update(worker, WorkerStatus::Idle)
            } else {
                self.workers
            },
    {
        self.lemma_record_all(events.results);
    }

    /// What serving the first workers leaves as it was.
    pub proof fn lemma_serve(self, events: Seq<EventsView>, cancels: Seq<C>)
        requires
            self.wf(),
            events.len() <= self.workers.len(),
        ensures
            ({
                let (after, handed) = self.serve(events, cancels);
                &&& after.wf()
                &&& after.capacity == self.capacity
                &&& after.result_capacity == self.result_capacity
                &&& after.workers.len() == self.workers.len()
                &&& handed_requests(handed) + after.requests == self.requests
                &&& handed.len() <= events.len()
                &&& forall|k: int|
                    0 <= k < handed.len() ==> {
                        &&& 0 <= (#[trigger] handed[k]).0 < events.len()
                        &&& self.workers[handed[k].0] == WorkerStatus::Idle
                            || events[handed[k].0].ready
                        &&& after.workers[handed[k].0] == WorkerStatus::Busy
                    }
                &&& forall|j: int, k: int|
                    0 <= j < k < handed.len() ==> (#[trigger] handed[j]).0 < (
                    #[trigger] handed[k]).0
                &&& forall|w: int|
                    events.len() <= w < self.workers.len() ==> #[trigger] after.workers[w]
                        == self.workers[w]
                &&& after.requests.len() > 0 ==> forall|w: int|
                    0 <= w < events.len() ==> #[trigger] after.workers[w] == WorkerStatus::Busy
            }),
        decreases events.len(),
    {
        if events.len() > 0 {
            let (before, first) = self.serve(events.drop_last(), cancels);
            let w = events.len() - 1;
            let heard = before.hear(w, events.last());
            self.lemma_serve(events.drop_last(), cancels);
            before.lemma_hear(w, events.last());
            let (after, handed) = self.serve(events, cancels);
            if heard.hands_out(w) {
                heard.lemma_hand_out_wf(w, cancels[first.len() as int]);
                assert(handed_requests(handed) =~= handed_requests(first).push(heard.requests[0]));
                assert(handed_requests(handed) + after.requests =~= handed_requests(first)
                    + heard.requests);
                assert forall|k: int| 0 <= k < handed.len() implies {
                    &&& 0 <= (#[trigger] handed[k]).0 < events.len()
                    &&& self.workers[handed[k].0] == WorkerStatus::Idle || events[handed[k].0].ready
                    &&& after.workers[handed[k].0] == WorkerStatus::Busy
                } by {
                    if k < first.len() {
                        assert(handed[k] == first[k]);
                    }
                }
                assert forall|j: int, k: int| 0 <= j < k < handed.len() implies (
                #[trigger] handed[j]).0 < (#[trigger] handed[k]).0 by {
                    assert(handed[j] == first[j]);
                    if k < first.len() {
                        assert(handed[k] == first[k]);
                    }
                }
            }
        } else {
            assert(handed_requests(Seq::<(int, RequestView)>::empty()) + self.requests
                =~= self.requests);
        }
    }
}

/// Requests are handed out in the order in which they were taken in, and none is
/// lost, repeated or overtaken: what was handed out in a turn, followed by what
/// still waits, is what waited before, followed by what was taken in.
pub proof fn law_first_come_first_served<S, C>(
    m: QueueModel<S, C>,
    incoming: Seq<RequestView>,
    events: Seq<EventsView>,
    cancels: Seq<C>,
)
    requires
        m.wf(),
        events.len() == m.workers.len(),
    ensures
        ({
            let (after, handed) = m.enqueue(incoming).serve(events, cancels);
            handed_requests(handed) + after.requests == m.requests + incoming.take(
                m.admitted(incoming.len()) as int,
            )
        }),
{
    m.enqueue(incoming).lemma_serve(events, cancels);
}

/// In a turn a worker gets at most one request, only if it was idle or said that
/// it is ready, and it is busy then.
pub proof fn law_one_request_per_worker<S, C>(
    m: QueueModel<S, C>,
    events: Seq<EventsView>,
    cancels: Seq<C>,
)
    requires
        m.wf(),
        events.len() == m.workers.len(),
    ensures
        ({
            let (after, handed) = m.serve(events, cancels);
            &&& forall|k: int|
                0 <= k < handed.len() ==> {
                    &&& 0 <= (#[trigger] handed[k]).0 < m.workers.len()
                    &&& m.workers[handed[k].0] == WorkerStatus::Idle || events[handed[k].0].ready
                    &&& after.workers[handed[k].0] == WorkerStatus::Busy
                }
            &&& forall|j: int, k: int|
                0 <= j < handed.len() && 0 <= k < handed.len() && j != k ==> (
                #[trigger] handed[j]).0 != (#[trigger] handed[k]).0
        }),
{
    m.lemma_serve(events, cancels);
}

/// No request waits while a worker is idle: if requests still wait after a turn,
/// every worker is busy.
pub proof fn law_no_idle_worker_while_requests_wait<S, C>(
    m: QueueModel<S, C>,
    events: Seq<EventsView>,
    cancels: Seq<C>,
)
    requires
        m.wf(),
        events.len() == m.workers.len(),
    ensures
        ({
            let after = m.serve(events, cancels).0;
            after.requests.len() > 0 ==> forall|w: int|
                0 <= w < after.workers.len() ==> #[trigger] after.workers[w] == WorkerStatus::Busy
        }),
{
    m.lemma_serve(events, cancels);
}

/// A full queue takes nothing in and stays as it is; a queue with room takes the
/// first request that comes.
pub proof fn law_capacity<S, C>(m: QueueModel<S, C>, incoming: Seq<RequestView>)
    requires
        m.wf(),
    ensures
        m.enqueue(incoming).wf(),
        m.requests.len() == m.capacity ==> m.admitted(incoming.len()) == 0 && m.enqueue(incoming)
            == m,
        m.requests.len() < m.capacity && incoming.len() > 0 ==> m.admitted(incoming.len()) > 0,
{
    assert(m.requests + incoming.take(0) =~= m.requests);
}

/// The reports of a request that has an entry are kept in the order in which they
/// came, behind those that are kept already; of a request without an entry none is kept.
pub proof fn law_reports_kept_in_order<S, C>(
    m: QueueModel<S, C>,
    rs: Seq<TestResultView>,
    id: Seq<char>,
)
    requires
        m.wf(),
    ensures
        table::lookup(m.record_all(rs).results, id) == match table::lookup(m.results, id) {
            Some(kept) => Some(kept + rs.filter(|r: TestResultView| r.id == id)),
            None => None,
        },
    decreases rs.len(),
{
    reveal(Seq::filter);
    let of_id = |r: TestResultView| r.id == id;
    if rs.len() == 0 {
        if let Some(kept) = table::lookup(m.results, id) {
            assert(kept + rs.filter(of_id) =~= kept);
        }
    } else {
        let before = m.record_all(rs.drop_last());
        let r = rs.last();
        law_reports_kept_in_order(m, rs.drop_last(), id);
        m.lemma_record_all(rs.drop_last());
        if let Some(kept) = table::lookup(before.results, r.id) {
            table::lemma_put(before.results, r.id, kept.push(r));
            if r.id == id {
                let first = table::lookup(m.results, id)->0;
                assert(kept.push(r) =~= first + rs.filter(of_id));
            }
        }
    }
}

/// When a request is handed out while reports of as many requests are kept as may
/// be, the reports of the one handed out first are dropped, with its monitor and
/// what was last told of it; those of the others stay.
pub proof fn law_oldest_result_dropped<S, C>(m: QueueModel<S, C>, worker: int, cancel: C)
    requires
        m.wf(),
        m.requests.len() > 0,
        0 < m.results.len() == m.result_capacity,
        table::lookup(m.results, m.requests[0].id) is None,
    ensures
        ({
            let after = m.hand_out(worker, cancel);
            let id = m.requests[0].id;
            let oldest = m.results[0].0;
            &&& after.results.len() == m.result_capacity
            &&& table::lookup(after.results, oldest) is None
            &&& table::lookup(after.monitors, oldest) is None
            &&& !after.recent.dom().contains(oldest)
            &&& table::lookup(after.results, id) == Some(Seq::<TestResultView>::empty())
            &&& forall|k: Seq<char>|
                k != oldest && k != id ==> {
                    &&& #[trigger] table::lookup(after.results, k) == table::lookup(m.results, k)
                    &&& table::lookup(after.monitors, k) == table::lookup(m.monitors, k)
                }
        }),
{
    let id = m.requests[0].id;
    let oldest = m.results[0].0;
    let fresh = Seq::<TestResultView>::empty();
    table::lemma_find(m.results, id);
    table::lemma_found_at(m.results, 0);
    table::lemma_put(m.results, id, fresh);
    let results = m.results.push((id, fresh));
    assert(table::put(m.results, id, fresh) == results);
    table::lemma_drop_first(results);
    table::lemma_without(results, oldest);
    table::lemma_without(m.monitors, oldest);
    let after = m.hand_out(worker, cancel);
    assert(after.results == table::without(results, oldest));
    assert(after.monitors == table::without(m.monitors, oldest));
    assert forall|k: Seq<char>| k != oldest && k != id implies {
        &&& #[trigger] table::lookup(after.results, k) == table::lookup(m.results, k)
        &&& table::lookup(after.monitors, k) == table::lookup(m.monitors, k)
    } by {
        assert(table::lookup(table::without(results, oldest), k) == table::lookup(results, k));
        assert(table::lookup(table::put(m.results, id, fresh), k) == table::lookup(m.results, k));
        assert(table::lookup(table::without(m.monitors, oldest), k) == table::lookup(
            m.monitors,
            k,
        ));
    }
    assert(table::lookup(table::without(results, oldest), oldest) is None);
    assert(table::lookup(table::without(m.monitors, oldest), oldest) is None);
    assert(table::lookup(table::without(results, oldest), id) == table::lookup(results, id));
    assert(table::lookup(table::put(m.results, id, fresh), id) == Some(fresh));
}

/// A monitor is told nothing twice: of a request that waits or that was handed
/// out there is no news right after its news were told.
pub proof fn law_nothing_told_twice<S, C>(m: QueueModel<S, C>, id: Seq<char>)
    requires
        m.wf(),
        table::lookup(m.results, id) is Some || m.position(id) is Some,
    ensures
        m.tell(id).news(id) == Seq::<ResponseView>::empty(),
{
    table::lemma_put(m.results, id, Seq::<TestResultView>::empty());
    assert(m.tell(id).news(id) =~= Seq::<ResponseView>::empty());
}

/// Of a running test that has printed nothing its monitor is told nothing, and is
/// not over.
pub proof fn law_silent_test<S, C>(m: QueueModel<S, C>, id: Seq<char>)
    requires
        m.wf(),
        table::lookup(m.results, id) == Some(Seq::<TestResultView>::empty()),
    ensures
        m.news(id) == Seq::<ResponseView>::empty(),
        !m.over(id),
{
    assert(m.news(id) =~= Seq::<ResponseView>::empty());
}

/// The rank that is told of a waiting request is its place among the waiting
/// ones, counted from 1.
pub proof fn law_rank<S, C>(m: QueueModel<S, C>, id: Seq<char>)
    requires
        m.wf(),
        m.position(id) is Some,
    ensures
        m.rank(id) matches RequestStatus::Queued(q) && {
            &&& 1 <= q <= m.requests.len()
            &&& m.requests[q - 1].id == id
            &&& forall|j: int| 0 <= j < q - 1 ==> (#[trigger] m.requests[j]).id != id
        },
{
    let ids = model::request_ids(m.requests);
    ids.index_of_first_ensures(id);
    assert forall|j: int| 0 <= j < m.position(id)->0 implies (#[trigger] m.requests[j]).id
        != id by {
        assert(ids[j] != id);
    }
}

/// When the first waiting request is handed out, every other one moves up by one.
pub proof fn law_ranks_move_up<S, C>(
    m: QueueModel<S, C>,
    worker: int,
    cancel: C,
    id: Seq<char>,
)
    requires
        m.wf(),
        m.requests.len() > 0,
        m.requests[0].id != id,
    ensures
        m.hand_out(worker, cancel).position(id) == match m.position(id) {
            Some(p) => Some(p - 1),
            None => None,
        },
{
    let ids = model::request_ids(m.requests);
    let rest = model::request_ids(m.requests.drop_first());
    ids.index_of_first_ensures(id);
    rest.index_of_first_ensures(id);
    assert(rest =~= ids.drop_first());
    if m.position(id) is Some {
        let p = m.position(id)->0;
        assert(ids[0] != id);
        assert(rest[p - 1] == id);
        let q = rest.index_of_first(id)->0;
        assert(ids[q + 1] == id);
    } else {
        if rest.index_of_first(id) is Some {
            let q = rest.index_of_first(id)->0;
            assert(ids[q + 1] == id);
        }
    }
}

/// The reports of a run: one of each line, and the last one.
pub open spec fn run_reports(
    id: Seq<char>,
    lines: Seq<Seq<char>>,
    outcome: RunOutcomeView,
    duration: u64,
) -> Seq<TestResultView> {
    lines.map_values(
        |line: Seq<char>| worker::report(id, line, 0, ResultCode::Processing),
    ).push(worker::conclusion(id, outcome, duration))
}

/// The response that passes a line of output on.
pub open spec fn line_response(id: Seq<char>, line: Seq<char>) -> ResponseView {
    ResponseView {
        id,
        status: RequestStatus::Processing,
        test_result: Some(worker::report(id, line, 0, ResultCode::Processing)),
    }
}

/// The response that says how a test ended and how long it ran.
pub open spec fn end_response(
    id: Seq<char>,
    outcome: RunOutcomeView,
    duration: u64,
) -> ResponseView {
    ResponseView {
        id,
        status: RequestStatus::Completed,
        test_result: Some(
            worker::report(
                id,
                Seq::empty(),
                duration,
                worker::conclusion(id, outcome, duration).result_code,
            ),
        ),
    }
}

/// All that a test printed reaches its monitor, line by line and in order,
/// followed by one response that says how the test ended; then nothing is left to tell.
pub proof fn law_output_reaches_monitor<S, C>(
    m: QueueModel<S, C>,
    id: Seq<char>,
    lines: Seq<Seq<char>>,
    outcome: RunOutcomeView,
    duration: u64,
)
    requires
        m.wf(),
        table::lookup(m.results, id) == Some(Seq::<TestResultView>::empty()),
    ensures
        ({
            let after = m.record_all(run_reports(id, lines, outcome, duration));
            &&& after.news(id) == lines.map_values(|line: Seq<char>| line_response(id, line)).push(
                end_response(id, outcome, duration),
            )
            &&& after.over(id)
        }),
{
    let reports = run_reports(id, lines, outcome, duration);
    let of_id = |r: TestResultView| r.id == id;
    law_reports_kept_in_order(m, reports, id);
    lemma_filter_all(reports, of_id);
    assert(Seq::<TestResultView>::empty() + reports =~= reports);
    lemma_reports_as_news(m.record_all(reports), id, lines, outcome, duration);
}

/// The news of a request of which the reports of a run are kept.
proof fn lemma_reports_as_news<S, C>(
    m: QueueModel<S, C>,
    id: Seq<char>,
    lines: Seq<Seq<char>>,
    outcome: RunOutcomeView,
    duration: u64,
)
    requires
        table::lookup(m.results, id) == Some(run_reports(id, lines, outcome, duration)),
    ensures
        m.news(id) == lines.map_values(|line: Seq<char>| line_response(id, line)).push(
            end_response(id, outcome, duration),
        ),
        m.over(id),
{
    let reports = run_reports(id, lines, outcome, duration);
    let told = lines.map_values(|line: Seq<char>| line_response(id, line)).push(
        end_response(id, outcome, duration),
    );
    assert forall|i: int| 0 <= i < reports.len() implies model::response_of(
        id,
        #[trigger] reports[i],
    ) == told[i] by {}
    assert(m.news(id) =~= told);
}

/// A filter that every element passes leaves a sequence as it is.
pub proof fn lemma_filter_all<A>(s: Seq<A>, pred: spec_fn(A) -> bool)
    requires
        forall|i: int| 0 <= i < s.len() ==> pred(#[trigger] s[i]),
    ensures
        s.filter(pred) == s,
    decreases s.len(),
{
    reveal(Seq::filter);
    if s.len() > 0 {
        lemma_filter_all(s.drop_last(), pred);
        assert(s.drop_last().push(s.last()) =~= s);
    }
}

/// The reports that came from several workers, one worker after the other.
pub open spec fn all_reports(events: Seq<EventsView>) -> Seq<TestResultView>
    decreases events.len(),
{
    if events.len() == 0 {
        Seq::empty()
    } else {
        all_reports(events.drop_last()) + events.last().results
    }
}

/// When a request is handed out, the reports of another one stay or are dropped.
proof fn lemma_hand_out_other<S, C>(m: QueueModel<S, C>, worker: int, cancel: C, id: Seq<char>)
    requires
        m.wf(),
        m.requests.len() > 0,
        m.requests[0].id != id,
    ensures
        ({
            let kept = table::lookup(m.hand_out(worker, cancel).results, id);
            kept is None || kept == table::lookup(m.results, id)
        }),
{
    let next = m.requests[0].id;
    let fresh = Seq::<TestResultView>::empty();
    let rest = table::without(m.results, next);
    let results = rest.push((next, fresh));
    table::lemma_find(m.results, next);
    table::lemma_renew(m.results, next, fresh);
    table::lemma_without(m.results, next);
    table::lemma_put(rest, next, fresh);
    assert(table::lookup(table::put(rest, next, fresh), id) == table::lookup(rest, id));
    assert(table::lookup(rest, id) == table::lookup(m.results, id));
    if results.len() > m.result_capacity {
        table::lemma_drop_first(results);
        table::lemma_without(results, results[0].0);
        assert(table::lookup(table::without(results, results[0].0), id) is None
            || table::lookup(table::without(results, results[0].0), id) == table::lookup(
            results,
            id,
        ));
    }
}

/// In a turn nothing that the workers report of a request is lost: of a request
/// that was handed out earlier and is not dropped, the reports of the turn are kept
/// in order behind those that are kept already.
pub proof fn law_turn_keeps_reports<S, C>(
    m: QueueModel<S, C>,
    events: Seq<EventsView>,
    cancels: Seq<C>,
    id: Seq<char>,
)
    requires
        m.wf(),
        events.len() <= m.workers.len(),
        !model::request_ids(handed_requests(m.serve(events, cancels).1)).contains(id),
    ensures
        match table::lookup(m.serve(events, cancels).0.results, id) {
            Some(kept) => {
                &&& table::lookup(m.results, id) is Some
                &&& kept == table::lookup(m.results, id)->0 + all_reports(events).filter(
                    |r: TestResultView| r.id == id,
                )
            },
            None => true,
        },
    decreases events.len(),
{
    let of_id = |r: TestResultView| r.id == id;
    if events.len() == 0 {
        reveal(Seq::filter);
        if let Some(kept) = table::lookup(m.results, id) {
            assert(kept + Seq::<TestResultView>::empty().filter(of_id) =~= kept);
        }
    } else {
        let init = events.drop_last();
        let (before, first) = m.serve(init, cancels);
        let (after, handed) = m.serve(events, cancels);
        let w = events.len() - 1;
        let heard = before.hear(w, events.last());
        let ids = model::request_ids(handed_requests(handed));
        let first_ids = model::request_ids(handed_requests(first));
        if first_ids.contains(id) {
            let k = first_ids.index_of(id);
            assert(handed[k] == first[k]);
            assert(ids[k] == id);
        }
        law_turn_keeps_reports(m, init, cancels, id);
        m.lemma_serve(init, cancels);
        before.lemma_hear(w, events.last());
        law_reports_kept_in_order(before, events.last().results, id);
        if heard.hands_out(w) {
            assert(ids[handed.len() - 1] == heard.requests[0].id);
            lemma_hand_out_other(heard, w, cancels[first.len() as int], id);
        }
        Seq::filter_distributes_over_add(all_reports(init), events.last().results, of_id);
        if table::lookup(after.results, id) is Some {
            let kept = table::lookup(m.results, id)->0;
            assert(kept + all_reports(init).filter(of_id) + events.last().results.filter(of_id)
                =~= kept + all_reports(events).filter(of_id));
        }
    }
}

/// Every monitor is told its own news, all of them and in order: the responses of
/// a round that go to a monitored request are its news, and no response goes to a
/// request that nobody monitors.
pub proof fn law_each_monitor_gets_its_news<S, C>(m: QueueModel<S, C>, id: Seq<char>)
    requires
        m.wf(),
    ensures
        m.news_all().filter(|r: ResponseView| r.id == id) == if table::lookup(
            m.monitors,
            id,
        ) is Some {
            m.news(id)
        } else {
            Seq::empty()
        },
{
    let n = m.monitors.len();
    lemma_news_first(m, n, id);
    table::lemma_find(m.monitors, id);
    assert(table::keys(m.monitors).take(n as int) =~= table::keys(m.monitors));
    table::keys(m.monitors).index_of_first_ensures(id);
}

/// What the first monitors are told of a request.
proof fn lemma_news_first<S, C>(m: QueueModel<S, C>, n: nat, id: Seq<char>)
    requires
        m.wf(),
        n <= m.monitors.len(),
    ensures
        m.news_first(n).filter(|r: ResponseView| r.id == id) == if table::keys(m.monitors).take(
            n as int,
        ).contains(id) {
            m.news(id)
        } else {
            Seq::empty()
        },
    decreases n,
{
    let of_id = |r: ResponseView| r.id == id;
    reveal(Seq::filter);
    if n > 0 {
        let keys = table::keys(m.monitors);
        let last = m.monitors[n - 1].0;
        let first = m.news_first((n - 1) as nat);
        lemma_news_first(m, (n - 1) as nat, id);
        Seq::filter_distributes_over_add(first, m.news(last), of_id);
        assert(keys[n - 1] == last);
        assert(keys.take(n as int) =~= keys.take(n - 1).push(last));
        assert(keys.take(n as int)[n - 1] == last);
        if keys.take(n - 1).contains(id) {
            let i = keys.take(n - 1).index_of(id);
            assert(keys.take(n as int)[i] == id);
            assert(keys[i] != keys[n - 1]);
        }
        if keys.take(n as int).contains(id) {
            let i = keys.take(n as int).index_of(id);
            if i < n - 1 {
                assert(keys.take(n - 1)[i] == id);
            }
        }
        if last == id {
            lemma_filter_all(m.news(last), of_id);
            assert(Seq::<ResponseView>::empty() + m.news(id) =~= m.news(id));
        } else {
            lemma_filter_none(m.news(last), of_id);
            assert(first.filter(of_id) + Seq::<ResponseView>::empty() =~= first.filter(of_id));
        }
    }
}

/// A filter that no element passes leaves nothing.
proof fn lemma_filter_none<A>(s: Seq<A>, pred: spec_fn(A) -> bool)
    requires
        forall|i: int| 0 <= i < s.len() ==> !pred(#[trigger] s[i]),
    ensures
        s.filter(pred) == Seq::<A>::empty(),
    decreases s.len(),
{
    reveal(Seq::filter);
    if s.len() > 0 {
        lemma_filter_none(s.drop_last(), pred);
    }
}

/// The requests that a round ends with are those that are monitored and of which
/// nothing is left to tell.
pub proof fn law_finished<S, C>(m: QueueModel<S, C>, id: Seq<char>)
    requires
        m.wf(),
    ensures
        m.over_all().contains(id) <==> table::lookup(m.monitors, id) is Some && m.over(id),
{
    let n = m.monitors.len();
    lemma_over_first(m, n, id);
    table::lemma_find(m.monitors, id);
    assert(table::keys(m.monitors).take(n as int) =~= table::keys(m.monitors));
    table::keys(m.monitors).index_of_first_ensures(id);
}

/// Whether a request is among those of the first monitors of which nothing is left to tell.
proof fn lemma_over_first<S, C>(m: QueueModel<S, C>, n: nat, id: Seq<char>)
    requires
        n <= m.monitors.len(),
    ensures
        m.over_first(n).contains(id) <==> table::keys(m.monitors).take(n as int).contains(id)
            && m.over(id),
    decreases n,
{
    if n > 0 {
        let keys = table::keys(m.monitors);
        let last = m.monitors[n - 1].0;
        let first = m.over_first((n - 1) as nat);
        lemma_over_first(m, (n - 1) as nat, id);
        assert(keys.take(n as int) =~= keys.take(n - 1).push(last));
        vstd::seq_lib::lemma_seq_contains_after_push(keys.take(n - 1), last, id);
        vstd::seq_lib::lemma_seq_contains_after_push(first, last, id);
    }
}

/// The queue after several batches of reports, behind each of which the monitor of a
/// request was told its news, and all that it was told.
pub open spec fn followed<S, C>(
    m: QueueModel<S, C>,
    id: Seq<char>,
    batches: Seq<Seq<TestResultView>>,
) -> (QueueModel<S, C>, Seq<ResponseView>)
    decreases batches.len(),
{
    if batches.len() == 0 {
        (m, Seq::empty())
    } else {
        let (before, told) = followed(m, id, batches.drop_last());
        let heard = before.record_all(batches.last());
        (heard.tell(id), told + heard.news(id))
    }
}

/// However the reports of a request are spread over batches, its monitor is told all
/// of them, each once and in the order in which they came, and none is left behind.
pub proof fn law_followed_request<S, C>(
    m: QueueModel<S, C>,
    id: Seq<char>,
    batches: Seq<Seq<TestResultView>>,
)
    requires
        m.wf(),
        table::lookup(m.results, id) == Some(Seq::<TestResultView>::empty()),
    ensures
        ({
            let (after, told) = followed(m, id, batches);
            &&& after.wf()
            &&& table::lookup(after.results, id) == Some(Seq::<TestResultView>::empty())
            &&& told == batches.flatten().filter(|r: TestResultView| r.id == id).map_values(
                |r: TestResultView| model::response_of(id, r),
            )
        }),
    decreases batches.len(),
{
    let of_id = |r: TestResultView| r.id == id;
    let passed_on = |r: TestResultView| model::response_of(id, r);
    if batches.len() == 0 {
        reveal(Seq::filter);
        assert(batches.flatten() =~= Seq::empty());
        assert(batches.flatten().filter(of_id).map_values(passed_on) =~= Seq::empty());
    } else {
        let init = batches.drop_last();
        let last = batches.last();
        let (before, told) = followed(m, id, init);
        let heard = before.record_all(last);
        law_followed_request(m, id, init);
        before.lemma_record_all(last);
        law_reports_kept_in_order(before, last, id);
        heard.lemma_tell(id);
        table::lemma_put(heard.results, id, Seq::<TestResultView>::empty());
        assert(Seq::<TestResultView>::empty() + last.filter(of_id) =~= last.filter(of_id));
        assert(heard.news(id) == last.filter(of_id).map_values(passed_on));
        assert(batches =~= init.push(last));
        init.lemma_flatten_push(last);
        Seq::filter_distributes_over_add(init.flatten(), last, of_id);
        assert(init.flatten().filter(of_id).map_values(passed_on) + last.filter(of_id).map_values(
            passed_on,
        ) =~= (init.flatten().filter(of_id) + last.filter(of_id)).map_values(passed_on));
    }
}

/// Every response carries a report exactly if it says that the test runs or has
/// ended, and goes to a request that is monitored.
pub proof fn law_responses<S, C>(m: QueueModel<S, C>, n: nat)
    requires
        m.wf(),
        n <= m.monitors.len(),
    ensures
        forall|i: int|
            0 <= i < m.news_first(n).len() ==> {
                let response = #[trigger] m.news_first(n)[i];
                &&& response.test_result is Some <==> (response.status is Processing
                    || response.status is Completed)
                &&& table::lookup(m.monitors, response.id) is Some
            },
    decreases n,
{
    if n > 0 {
        law_responses(m, (n - 1) as nat);
        let id = m.monitors[n - 1].0;
        table::lemma_found_at(m.monitors, n - 1);
        let first = m.news_first((n - 1) as nat);
        assert forall|i: int| 0 <= i < m.news_first(n).len() implies ({
            let response = #[trigger] m.news_first(n)[i];
            &&& response.test_result is Some <==> (response.status is Processing
                || response.status is Completed)
            &&& table::lookup(m.monitors, response.id) is Some
        }) by {
            if i < first.len() {
                assert(m.news_first(n)[i] == first[i]);
            } else {
                assert(m.news_first(n)[i] == m.news(id)[i - first.len()]);
            }
        }
    }
}

/// Taking monitors in and telling them their news changes neither what waits nor
/// what the workers are doing, and cancels nothing.
pub proof fn law_monitors_do_not_disturb<S, C>(
    m: QueueModel<S, C>,
    incoming: Seq<(Seq<char>, S)>,
)
    requires
        m.wf(),
    ensures
        ({
            let after = m.watch(incoming).tell_all();
            &&& after.requests == m.requests
            &&& after.workers == m.workers
            &&& after.cancels == m.cancels
        }),
{
    m.lemma_watch(incoming);
    let watched = m.watch(incoming);
    watched.lemma_tell_first(watched.monitors.len());
}

/// The reports of a request that nobody monitors are not taken by a turn.
pub proof fn law_unmonitored_reports_stay<S, C>(m: QueueModel<S, C>, n: nat, id: Seq<char>)
    requires
        m.wf(),
        n <= m.monitors.len(),
        table::lookup(m.monitors, id) is None,
    ensures
        table::lookup(m.tell_first(n).results, id) == table::lookup(m.results, id),
    decreases n,
{
    if n > 0 {
        let before = m.tell_first((n - 1) as nat);
        law_unmonitored_reports_stay(m, (n - 1) as nat, id);
        m.lemma_tell_first((n - 1) as nat);
        table::lemma_find(m.monitors, id);
        table::lemma_put(before.results, m.monitors[n - 1].0, Seq::<TestResultView>::empty());
    }
}

/// A request that was given up leaves no monitor, no reports and no cancel channel
/// behind; nothing of that changes for a request that was not given up.
pub proof fn law_given_up<S, C>(m: QueueModel<S, C>, ids: Seq<Seq<char>>)
    requires
        m.wf(),
    ensures
        m.close_all(ids).wf(),
        forall|id: Seq<char>|
            #![trigger ids.contains(id)]
            if ids.contains(id) {
                &&& table::lookup(m.close_all(ids).monitors, id) is None
                &&& table::lookup(m.close_all(ids).results, id) is None
                &&& table::lookup(m.close_all(ids).cancels, id) is None
            } else {
                &&& table::lookup(m.close_all(ids).monitors, id) == table::lookup(m.monitors, id)
                &&& table::lookup(m.close_all(ids).results, id) == table::lookup(m.results, id)
                &&& table::lookup(m.close_all(ids).cancels, id) == table::lookup(m.cancels, id)
            },
        m.close_all(ids).recent == m.recent,
        m.close_all(ids).workers == m.workers,
    decreases ids.len(),
{
    if ids.len() > 0 {
        let before = m.close_all(ids.drop_last());
        law_given_up(m, ids.drop_last());
        before.lemma_close_wf(ids.last());
        table::lemma_without(before.monitors, ids.last());
        table::lemma_without(before.results, ids.last());
        table::lemma_without(before.cancels, ids.last());
        assert forall|id: Seq<char>| #![trigger ids.contains(id)]
            ids.contains(id) == (ids.drop_last().contains(id) || id == ids.last()) by {
            if ids.contains(id) {
                let i = ids.index_of(id);
                if i < ids.len() - 1 {
                    assert(ids.drop_last()[i] == id);
                }
            }
            if ids.drop_last().contains(id) {
                let i = ids.drop_last().index_of(id);
                assert(ids[i] == id);
            }
            assert(ids[ids.len() - 1] == ids.last());
        }
    }
}

/// A request that was given up does not wait any more, if it waited once only; the
/// others keep their order.
pub proof fn law_given_up_does_not_wait<S, C>(m: QueueModel<S, C>, id: Seq<char>)
    requires
        m.wf(),
        model::request_ids(m.requests).no_duplicates(),
    ensures
        m.close(id).position(id) is None,
        m.close(id).requests == m.requests.filter(|r: RequestView| r.id != id),
{
    let ids = model::request_ids(m.requests);
    let others = |r: RequestView| r.id != id;
    ids.index_of_first_ensures(id);
    let left = m.close(id).requests;
    match m.position(id) {
        Some(p) => {
            let front = m.requests.take(p);
            let back = m.requests.skip(p + 1);
            assert(m.requests =~= front.push(m.requests[p]) + back);
            assert forall|i: int| 0 <= i < front.len() implies others(#[trigger] front[i]) by {
                assert(ids[i] != ids[p]);
            }
            assert forall|i: int| 0 <= i < back.len() implies others(#[trigger] back[i]) by {
                assert(ids[i + p + 1] != ids[p]);
            }
            lemma_filter_all(front, others);
            lemma_filter_all(back, others);
            Seq::filter_distributes_over_add(front.push(m.requests[p]), back, others);
            assert(front.push(m.requests[p]).filter(others) == front) by {
                reveal(Seq::filter);
                assert(front.push(m.requests[p]).drop_last() =~= front);
            }
            assert(left =~= front + back);
        },
        None => {
            assert forall|i: int| 0 <= i < m.requests.len() implies others(
                #[trigger] m.requests[i],
            ) by {
                assert(ids[i] != id);
            }
            lemma_filter_all(m.requests, others);
        },
    }
    let left_ids = model::request_ids(left);
    left_ids.index_of_first_ensures(id);
    if left_ids.index_of_first(id) is Some {
        let i = left_ids.index_of_first(id)->0;
        assert(left[i].id == id);
        match m.position(id) {
            Some(p) => {
                let j = if i < p { i } else { i + 1 };
                assert(ids[j] == ids[p]);
            },
            None => {
                assert(ids[i] == id);
            },
        }
    }
}

/// When requests are given up, each running one among them gets its cancel signal,
/// and no cancel channel of another request gets one.
pub proof fn law_cancel_signals<S, C>(m: QueueModel<S, C>, ids: Seq<Seq<char>>)
    requires
        m.wf(),
    ensures
        forall|id: Seq<char>|
            #![trigger ids.contains(id)]
            ids.contains(id) && table::lookup(m.cancels, id) is Some ==> m.signals(ids).contains(
                table::lookup(m.cancels, id)->0,
            ),
        forall|k: int|
            0 <= k < m.signals(ids).len() ==> m.cancels_one_of(ids, #[trigger] m.signals(ids)[k]),
    decreases ids.len(),
{
    if ids.len() > 0 {
        let init = ids.drop_last();
        let last = ids.last();
        let before = m.close_all(init);
        law_cancel_signals(m, init);
        law_given_up(m, init);
        let signals = m.signals(ids);
        let first = m.signals(init);
        assert(ids[ids.len() - 1] == last);
        assert(init.contains(last) || table::lookup(before.cancels, last) == table::lookup(
            m.cancels,
            last,
        ));
        assert forall|id: Seq<char>| #![trigger ids.contains(id)]
            ids.contains(id) && table::lookup(m.cancels, id) is Some implies signals.contains(
            table::lookup(m.cancels, id)->0,
        ) by {
            let c = table::lookup(m.cancels, id)->0;
            let i = ids.index_of(id);
            if i < ids.len() - 1 {
                assert(init[i] == id);
            }
            if init.contains(id) {
                let k = first.index_of(c);
                assert(signals[k] == c);
            } else {
                assert(signals[signals.len() - 1] == c);
            }
        }
        assert forall|k: int| 0 <= k < signals.len() implies m.cancels_one_of(
            ids,
            #[trigger] signals[k],
        ) by {
            if k < first.len() {
                assert(signals[k] == first[k]);
                assert(m.cancels_one_of(init, first[k]));
                let id = choose|id: Seq<char>| #[trigger]
                    init.contains(id) && table::lookup(m.cancels, id) == Some(first[k]);
                let i = init.index_of(id);
                assert(ids[i] == id);
                assert(ids.contains(id));
            } else {
                assert(ids.contains(last));
            }
        }
    }
}

/// When requests are given up, each that has a cancel channel gets exactly one
/// signal through it, however often it is named, in the order in which they are
/// first named: as many signals are sent as different requests with a cancel
/// channel are given up.
pub proof fn law_one_signal_each<S, C>(m: QueueModel<S, C>, ids: Seq<Seq<char>>)
    requires
        m.wf(),
    ensures
        m.signals(ids) == m.canceled(ids).map_values(
            |id: Seq<char>| table::lookup(m.cancels, id)->0,
        ),
        m.canceled(ids).no_duplicates(),
        forall|id: Seq<char>|
            #![trigger m.canceled(ids).contains(id)]
            m.canceled(ids).contains(id) <==> ids.contains(id) && table::lookup(
                m.cancels,
                id,
            ) is Some,
        m.signals(ids).len() == ids.to_set().filter(
            |id: Seq<char>| table::lookup(m.cancels, id) is Some,
        ).len(),
{
    lemma_canceled(m, ids);
    m.canceled(ids).unique_seq_to_set();
    assert(m.canceled(ids).to_set() =~= ids.to_set().filter(
        |id: Seq<char>| table::lookup(m.cancels, id) is Some,
    )) by {
        assert forall|id: Seq<char>| #![trigger m.canceled(ids).contains(id)]
            m.canceled(ids).to_set().contains(id) == m.canceled(ids).contains(id) by {}
    }
}

/// The signals are sent through the channels of the canceled requests.
proof fn lemma_canceled<S, C>(m: QueueModel<S, C>, ids: Seq<Seq<char>>)
    requires
        m.wf(),
    ensures
        m.signals(ids) == m.canceled(ids).map_values(
            |id: Seq<char>| table::lookup(m.cancels, id)->0,
        ),
        m.canceled(ids).no_duplicates(),
        forall|id: Seq<char>|
            #![trigger m.canceled(ids).contains(id)]
            m.canceled(ids).contains(id) <==> ids.contains(id) && table::lookup(
                m.cancels,
                id,
            ) is Some,
    decreases ids.len(),
{
    let channel = |id: Seq<char>| table::lookup(m.cancels, id)->0;
    if ids.len() == 0 {
        assert(m.signals(ids) =~= m.canceled(ids).map_values(channel));
    } else {
        let init = ids.drop_last();
        let last = ids.last();
        let first = m.canceled(init);
        lemma_canceled(m, init);
        law_given_up(m, init);
        assert(table::lookup(m.close_all(init).cancels, last) == if init.contains(last) {
            None
        } else {
            table::lookup(m.cancels, last)
        });
        assert(ids =~= init.push(last));
        assert forall|id: Seq<char>| #![trigger m.canceled(ids).contains(id)]
            m.canceled(ids).contains(id) <==> ids.contains(id) && table::lookup(
                m.cancels,
                id,
            ) is Some by {
            vstd::seq_lib::lemma_seq_contains_after_push(init, last, id);
            vstd::seq_lib::lemma_seq_contains_after_push(first, last, id);
            assert(first.contains(id) <==> init.contains(id) && table::lookup(
                m.cancels,
                id,
            ) is Some);
        }
        assert(!init.contains(last) ==> !first.contains(last));
        assert(first.push(last).map_values(channel) =~= first.map_values(channel).push(
            channel(last),
        ));
    }
}

/// A running request that is given up several times at once gets one signal.
pub proof fn law_repeated_give_up<S, C>(
    m: QueueModel<S, C>,
    ids: Seq<Seq<char>>,
    id: Seq<char>,
    cancel: C,
)
    requires
        m.wf(),
        ids.len() > 0,
        forall|i: int| 0 <= i < ids.len() ==> #[trigger] ids[i] == id,
        table::lookup(m.cancels, id) == Some(cancel),
    ensures
        m.signals(ids) == seq![cancel],
    decreases ids.len(),
{
    let init = ids.drop_last();
    law_given_up(m, init);
    assert(ids.last() == ids[ids.len() - 1]);
    if init.len() > 0 {
        law_repeated_give_up(m, init, id, cancel);
        assert(init[0] == id);
        assert(init.contains(id));
        assert(table::lookup(m.close_all(init).cancels, id) is None);
    } else {
        assert(m.signals(init) =~= Seq::<C>::empty());
        assert(m.signals(ids) =~= seq![cancel]);
    }
}

/// Every request that has reports kept is canceled when it is given up.
pub proof fn law_kept_request_is_canceled<S, C>(m: QueueModel<S, C>, id: Seq<char>)
    requires
        m.wf(),
        table::lookup(m.results, id) is Some,
    ensures
        table::lookup(m.cancels, id) is Some,
        m.signals(seq![id]) == seq![table::lookup(m.cancels, id)->0],
{
    law_repeated_give_up(m, seq![id], id, table::lookup(m.cancels, id)->0);
}

/// A request whose reports were dropped keeps its cancel channel. If it does not
/// wait, a later monitor of it is told that it is not found, which ends the
/// request: when the round is settled, the test gets its cancel signal.
pub proof fn law_monitor_of_dropped_request<S, C>(
    m: QueueModel<S, C>,
    worker: int,
    cancel: C,
    monitor: S,
)
    requires
        m.wf(),
        m.requests.len() > 0,
        0 < m.results.len() == m.result_capacity,
        table::lookup(m.results, m.requests[0].id) is None,
        m.position(m.results[0].0) is None,
    ensures
        ({
            let oldest = m.results[0].0;
            let after = m.hand_out(worker, cancel);
            let watched = after.watch(seq![(oldest, monitor)]);
            &&& table::lookup(m.cancels, oldest) is Some
            &&& table::lookup(after.cancels, oldest) == table::lookup(m.cancels, oldest)
            &&& watched.news(oldest) == seq![
                model::bare_response(oldest, RequestStatus::NotFound),
            ]
            &&& watched.over_all().contains(oldest)
            &&& watched.tell_all().signals(watched.over_all()).contains(
                table::lookup(m.cancels, oldest)->0,
            )
            &&& table::lookup(
                watched.tell_all().close_all(watched.over_all()).cancels,
                oldest,
            ) is None
        }),
{
    let oldest = m.results[0].0;
    let id = m.requests[0].id;
    let after = m.hand_out(worker, cancel);
    let incoming = seq![(oldest, monitor)];
    let watched = after.watch(incoming);
    table::lemma_found_at(m.results, 0);
    law_oldest_result_dropped(m, worker, cancel);
    m.lemma_hand_out_wf(worker, cancel);
    table::lemma_put(m.cancels, id, cancel);
    assert(after.cancels == table::put(m.cancels, id, cancel));
    let ids = model::request_ids(m.requests);
    let rest = model::request_ids(after.requests);
    ids.index_of_first_ensures(oldest);
    rest.index_of_first_ensures(oldest);
    if after.position(oldest) is Some {
        let p = after.position(oldest)->0;
        assert(rest[p] == ids[p + 1]);
    }
    after.lemma_watch(incoming);
    law_last_monitor(after, incoming, 0);
    law_finished(watched, oldest);
    watched.lemma_tell_first(watched.monitors.len());
    law_cancel_signals(watched.tell_all(), watched.over_all());
    law_given_up(watched.tell_all(), watched.over_all());
}

/// A request that is neither waiting nor handed out is told as not found, and its
/// monitor is over.
pub proof fn law_unknown_request<S, C>(m: QueueModel<S, C>, id: Seq<char>)
    requires
        m.wf(),
        m.position(id) is None,
        table::lookup(m.results, id) is None,
    ensures
        m.news(id) == seq![model::bare_response(id, RequestStatus::NotFound)],
        m.over(id),
{
}

/// A request that was taken in waits, so it is not told as not found.
pub proof fn law_taken_in_is_found<S, C>(m: QueueModel<S, C>, incoming: Seq<RequestView>, i: int)
    requires
        m.wf(),
        0 <= i < m.admitted(incoming.len()),
    ensures
        m.enqueue(incoming).position(incoming[i].id) is Some,
        table::lookup(m.results, incoming[i].id) is None ==> !m.enqueue(incoming).over(
            incoming[i].id,
        ),
{
    let after = m.enqueue(incoming);
    let ids = model::request_ids(after.requests);
    ids.index_of_first_ensures(incoming[i].id);
    assert(ids[m.requests.len() + i] == incoming[i].id);
}

/// A request that was handed out has an entry for its reports, so it is not told
/// as not found, unless no reports may be kept at all.
pub proof fn law_handed_out_is_found<S, C>(m: QueueModel<S, C>, worker: int, cancel: C)
    requires
        m.wf(),
        m.requests.len() > 0,
        m.result_capacity > 0,
    ensures
        table::lookup(m.hand_out(worker, cancel).results, m.requests[0].id) == Some(
            Seq::<TestResultView>::empty(),
        ),
        table::lookup(m.hand_out(worker, cancel).cancels, m.requests[0].id) == Some(cancel),
{
    let id = m.requests[0].id;
    let fresh = Seq::<TestResultView>::empty();
    let rest = table::without(m.results, id);
    let results = rest.push((id, fresh));
    table::lemma_find(m.results, id);
    table::lemma_renew(m.results, id, fresh);
    table::lemma_without(m.results, id);
    table::lemma_put(rest, id, fresh);
    table::lemma_put(m.cancels, id, cancel);
    assert(table::lookup(table::put(rest, id, fresh), id) == Some(fresh));
    assert(table::lookup(table::put(m.cancels, id, cancel), id) == Some(cancel));
    if results.len() > m.result_capacity {
        assert(rest.len() > 0);
        assert(results[0] == rest[0]);
        table::lemma_drop_first(results);
        table::lemma_without(results, results[0].0);
        assert(table::keys(results)[0] != table::keys(results)[results.len() - 1]);
        assert(table::lookup(table::without(results, results[0].0), id) == table::lookup(
            results,
            id,
        ));
    }
}

/// Once the end of a test was told, its result is gone: a later monitor of the
/// same request is told that it is not found.
pub proof fn law_result_taken_once<S, C>(m: QueueModel<S, C>, id: Seq<char>)
    requires
        m.wf(),
        table::lookup(m.results, id) is Some,
        m.over(id),
        m.position(id) is None,
    ensures
        m.tell(id).close(id).news(id) == seq![model::bare_response(id, RequestStatus::NotFound)],
{
    m.lemma_tell(id);
    table::lemma_without(m.tell(id).results, id);
    assert(table::lookup(m.tell(id).close(id).results, id) is None);
}

/// Of several monitors of a request the one that came last is answered.
pub proof fn law_last_monitor<S, C>(m: QueueModel<S, C>, incoming: Seq<(Seq<char>, S)>, k: int)
    requires
        m.wf(),
        0 <= k < incoming.len(),
        forall|j: int| k < j < incoming.len() ==> (#[trigger] incoming[j]).0 != incoming[k].0,
    ensures
        table::lookup(m.watch(incoming).monitors, incoming[k].0) == Some(incoming[k].1),
    decreases incoming.len(),
{
    let before = m.watch(incoming.drop_last());
    table::lemma_put(before.monitors, incoming.last().0, incoming.last().1);
    if k < incoming.len() - 1 {
        assert(incoming.drop_last()[k] == incoming[k]);
        assert forall|j: int| k < j < incoming.drop_last().len() implies (
        #[trigger] incoming.drop_last()[j]).0 != incoming.drop_last()[k].0 by {
            assert(incoming.drop_last()[j] == incoming[j]);
        }
        law_last_monitor(m, incoming.drop_last(), k);
        assert(incoming[incoming.len() - 1].0 != incoming[k].0);
    }
}

/// What a worker reports of a run on the events of the run, and how the run ended.
pub open spec fn run_of(id: Seq<char>, events: Seq<RunEvent>) -> (
    Seq<TestResultView>,
    Option<RunOutcomeView>,
)
    decreases events.len(),
{
    if events.len() == 0 {
        (Seq::empty(), None)
    } else {
        match worker::step_of(id, events[0]) {
            RunStepView::Report(r) => {
                let (rest, outcome) = run_of(id, events.drop_first());
                (seq![r] + rest, outcome)
            },
            RunStepView::Kill(outcome) => (Seq::empty(), Some(outcome)),
            RunStepView::Finish(outcome) => (Seq::empty(), Some(outcome)),
        }
    }
}

/// A run is reported line by line, in order, up to the first event that is not a
/// line; that event ends the run, whatever follows.
pub proof fn law_run(
    id: Seq<char>,
    lines: Seq<String>,
    last: RunEvent,
    more: Seq<RunEvent>,
)
    requires
        !(last is Line),
    ensures
        ({
            let (reports, outcome) = run_of(
                id,
                lines.map_values(|line: String| RunEvent::Line(line)).push(last) + more,
            );
            &&& reports == lines.map_values(
                |line: String| worker::report(id, line@, 0, ResultCode::Processing),
            )
            &&& outcome is Some
            &&& worker::step_of(id, last) == RunStepView::Kill(outcome->0)
                || worker::step_of(id, last) == RunStepView::Finish(outcome->0)
        }),
    decreases lines.len(),
{
    let events = lines.map_values(|line: String| RunEvent::Line(line)).push(last) + more;
    if lines.len() > 0 {
        let rest = lines.drop_first();
        law_run(id, rest, last, more);
        assert(events.drop_first() =~= rest.map_values(|line: String| RunEvent::Line(line)).push(
            last,
        ) + more);
        assert(run_of(id, events).0 =~= lines.map_values(
            |line: String| worker::report(id, line@, 0, ResultCode::Processing),
        ));
    } else {
        assert(events[0] == last);
        assert(run_of(id, events).0 =~= lines.map_values(
            |line: String| worker::report(id, line@, 0, ResultCode::Processing),
        ));
    }
}

/// The last report of a run says that the test does not run any more, and how long it ran.
pub proof fn law_last_report(id: Seq<char>, outcome: RunOutcomeView, duration: u64)
    ensures
        worker::conclusion(id, outcome, duration).id == id,
        worker::conclusion(id, outcome, duration).result_code != ResultCode::Processing,
        worker::conclusion(id, outcome, duration).time_ms == duration,
{
}

/// The duration of a run is its time in whole milliseconds, unless the clock was
/// set back meanwhile.
pub proof fn law_duration(start: ClockReading, end: ClockReading)
    requires
        start.in_range(),
        end.in_range(),
        start.total_nanos() <= end.total_nanos(),
    ensures
        worker::duration_of(start, end) == (end.total_nanos() - start.total_nanos()) / 1_000_000,
{
}

/// The path of the saved file is what a worker reads from the body of the request
/// that the upload gives: it stands for `$FILE`, and it is what is removed.
pub proof fn law_worker_gets_path(u: UploadView)
    ensures
        text::text_of(u.request().body) == u.tmp_file_path,
{
    vstd::utf8::encode_utf8_valid_utf8(u.tmp_file_path);
    vstd::utf8::encode_utf8_decode_utf8(u.tmp_file_path);
}

/// Submissions with different identifiers are saved in different files.
pub proof fn law_files_differ(dir: Seq<char>, id: Seq<char>, other: Seq<char>)
    requires
        id != other,
    ensures
        server::tmp_file_path(dir, id) != server::tmp_file_path(dir, other),
{
    let path = server::tmp_file_path(dir, id);
    let other_path = server::tmp_file_path(dir, other);
    let n = dir.len() + "/"@.len();
    if path == other_path {
        assert(path.len() == n + id.len() + ".tar.gz"@.len());
        assert(other_path.len() == n + other.len() + ".tar.gz"@.len());
        assert forall|i: int| 0 <= i < id.len() implies id[i] == other[i] by {
            assert(path[n + i] == id[i]);
            assert(other_path[n + i] == other[i]);
        }
        assert(id =~= other);
    }
}

/// The upload after several events of the body.
pub open spec fn after_all(u: UploadView, events: Seq<BodyEvent>) -> UploadView
    decreases events.len(),
{
    if events.len() == 0 {
        u
    } else {
        after_all(u, events.drop_last()).after(events.last())
    }
}

/// The data of several chunks, one behind the other.
pub open spec fn joined(chunks: Seq<Vec<u8>>) -> Seq<u8>
    decreases chunks.len(),
{
    if chunks.len() == 0 {
        Seq::empty()
    } else {
        joined(chunks.drop_last()) + chunks.last()@
    }
}

/// The chunks of a body as events.
pub open spec fn chunk_events(chunks: Seq<Vec<u8>>) -> Seq<BodyEvent> {
    chunks.map_values(|bytes: Vec<u8>| BodyEvent::Data(bytes))
}

/// What is received is the chunks of the body, one behind the other, with nothing
/// left out; while it stays within the limit, more is received.
pub proof fn law_content(u: UploadView, chunks: Seq<Vec<u8>>)
    requires
        u.status_code == 0,
        u.content.len() + joined(chunks).len() <= u.limit,
    ensures
        after_all(u, chunk_events(chunks)) == (UploadView {
            content: u.content + joined(chunks),
            ..u
        }),
    decreases chunks.len(),
{
    let events = chunk_events(chunks);
    if chunks.len() == 0 {
        assert(u.content + joined(chunks) =~= u.content);
    } else {
        law_content(u, chunks.drop_last());
        assert(events.drop_last() =~= chunk_events(chunks.drop_last()));
        assert(u.content + joined(chunks.drop_last()) + chunks.last()@ =~= u.content + joined(
            chunks,
        ));
    }
}

/// Whether an upload that has not ended is within its limit.
pub open spec fn within_limit(u: UploadView) -> bool {
    u.phase() == UploadPhase::Ended || u.content.len() <= u.limit
}

/// No more than the limit is ever saved: an upload that exceeds it has ended, and
/// the client is told so.
pub proof fn law_limit(u: UploadView, event: BodyEvent)
    requires
        u.phase() == UploadPhase::Receive,
        within_limit(u),
    ensures
        within_limit(u.after(event)),
        event matches BodyEvent::Data(bytes) && u.content.len() + bytes@.len() > u.limit ==> {
            &&& u.after(event).phase() == UploadPhase::Ended
            &&& u.told(event) == upload::too_large_frame(u.limit)
        },
        u.after(event).phase() == UploadPhase::Submit <==> event is End,
{
}

/// An identifier that a client was given is what its monitor asks for.
pub proof fn law_monitor_route(id: Seq<char>)
    ensures
        server::route_of("GET"@, "/monitor/"@ + id) == server::RouteView::Monitor(id),
{
    reveal_strlit("GET");
    reveal_strlit("POST");
    reveal_strlit("/report");
    reveal_strlit("/monitor/");
    let path = "/monitor/"@ + id;
    assert("GET"@.len() != "POST"@.len());
    assert("/report"@[1] != path[1]);
    assert("/monitor/"@.is_prefix_of(path));
    assert(path.skip("/monitor/"@.len() as int) =~= id);
}

/// Only `POST` and `GET` lead anywhere.
pub proof fn law_other_methods(method: Seq<char>, path: Seq<char>)
    requires
        method != "POST"@,
        method != "GET"@,
    ensures
        server::route_of(method, path) == server::RouteView::NotFound,
{
}

/// Whether a text holds no line break.
pub open spec fn unbroken(s: Seq<char>) -> bool {
    forall|i: int| 0 <= i < s.len() ==> #[trigger] s[i] != '\n'
}

/// Whether a text is one line, with its line break at the end.
pub open spec fn one_line(s: Seq<char>) -> bool {
    s.len() > 0 && s.last() == '\n' && unbroken(s.drop_last())
}

proof fn lemma_decimal_unbroken(n: nat)
    ensures
        unbroken(text::decimal(n)),
    decreases n,
{
    if n >= 10 {
        lemma_decimal_unbroken(n / 10);
    }
}

proof fn lemma_json_unbroken(s: Seq<char>)
    ensures
        unbroken(text::json_chars(s)),
    decreases s.len(),
{
    if s.len() > 0 {
        lemma_json_unbroken(s.drop_last());
        assert(unbroken(text::json_char(s.last())));
    }
}

proof fn lemma_one_line(head: Seq<char>, middle: Seq<char>, tail: Seq<char>)
    requires
        unbroken(head),
        unbroken(middle),
        one_line(tail),
    ensures
        one_line(head + middle + tail),
{
    let s = head + middle + tail;
    assert(s.drop_last() =~= head + middle + tail.drop_last());
}

/// Each answer to an event of the body is one line.
pub proof fn law_upload_answers_are_lines(u: UploadView, event: BodyEvent)
    ensures
        one_line(u.told(event)),
{
    reveal_strlit("\n");
    reveal_strlit("}");
    reveal_strlit("}\n");
    match event {
        BodyEvent::Data(bytes) => {
            if u.content.len() + bytes@.len() > u.limit {
                reveal_strlit(
                    "{\"status\": \"FileSizeExceeded\", \"message\": \"Upload file size exceeds limit of ",
                );
                reveal_strlit(" bytes\"}\n");
                lemma_decimal_unbroken(u.limit);
                lemma_one_line(
                    "{\"status\": \"FileSizeExceeded\", \"message\": \"Upload file size exceeds limit of "@,
                    text::decimal(u.limit),
                    " bytes\"}\n"@,
                );
            } else {
                reveal_strlit("{\"status\": \"Processing\", \"progress\": ");
                lemma_decimal_unbroken(bytes@.len());
                lemma_one_line(
                    "{\"status\": \"Processing\", \"progress\": "@,
                    text::decimal(bytes@.len()),
                    "}\n"@,
                );
            }
        },
        BodyEvent::NotData(what) => {
            lemma_error_line("Failed to read body frame: "@ + what@);
        },
        BodyEvent::Failed(why) => {
            lemma_error_line("Failed to read body frame: "@ + why@);
        },
        BodyEvent::End => {
            reveal_strlit("{\"status\": \"FileUploadCompleted\"}\n");
        },
    }
}

proof fn lemma_error_line(message: Seq<char>)
    ensures
        one_line(upload::error_frame(message) + "\n"@),
{
    reveal_strlit("\n");
    reveal_strlit("}");
    reveal_strlit("{\"status\": \"ServerError\", \"message\": ");
    lemma_json_unbroken(message);
    let quoted = text::json_quoted(message);
    assert(unbroken(quoted));
    let frame = upload::error_frame(message) + "\n"@;
    assert(frame.drop_last() =~= upload::error_frame(message));
}

proof fn lemma_report_unbroken(r: TestResultView)
    ensures
        unbroken(worker::report_json(r)),
{
    reveal_strlit("{\"id\":");
    reveal_strlit(",\"point\":");
    reveal_strlit(",\"total\":");
    reveal_strlit(",\"output\":");
    reveal_strlit(",\"time_ms\":");
    reveal_strlit(",\"result_code\":\"");
    reveal_strlit("\"}");
    reveal_strlit("Processing");
    reveal_strlit("Completed");
    reveal_strlit("Canceled");
    reveal_strlit("TimeLimitExceeded");
    reveal_strlit("RuntimeError");
    reveal_strlit("ServerError");
    lemma_json_unbroken(r.id);
    lemma_json_unbroken(r.output);
    lemma_decimal_unbroken(r.point as nat);
    lemma_decimal_unbroken(r.total as nat);
    lemma_decimal_unbroken(r.time_ms as nat);
    assert(unbroken(text::json_quoted(r.id)));
    assert(unbroken(text::json_quoted(r.output)));
    assert(unbroken(r.result_code.spec_name()));
}

/// Each answer to a monitor is one line, whatever the test printed.
pub proof fn law_monitor_answers_are_lines(response: ResponseView)
    ensures
        one_line(server::monitor_line(response)),
{
    reveal_strlit("}\n");
    let result_json = worker::report_json(response.test_result->0);
    lemma_report_unbroken(response.test_result->0);
    match response.status {
        RequestStatus::Queued(q) => {
            reveal_strlit("{\"status\": \"QUEUE\", \"position\": ");
            lemma_decimal_unbroken(q as nat);
            lemma_one_line(
                "{\"status\": \"QUEUE\", \"position\": "@,
                text::decimal(q as nat),
                "}\n"@,
            );
        },
        RequestStatus::Processing => {
            reveal_strlit("{\"status\": \"PROCESSING\", \"result\": ");
            lemma_one_line("{\"status\": \"PROCESSING\", \"result\": "@, result_json, "}\n"@);
        },
        RequestStatus::Completed => {
            reveal_strlit("{\"status\": \"COMPLETED\", \"result\": ");
            lemma_one_line("{\"status\": \"COMPLETED\", \"result\": "@, result_json, "}\n"@);
        },
        RequestStatus::NotFound => {
            reveal_strlit("{\"status\": \"NOTFOUND\"}\n");
        },
    }
}

} // verus!
