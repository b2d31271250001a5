//! The request queue as a mathematical value, and what each of its operations does to it.

use vstd::prelude::*;

use crate::server::queue::{RequestStatus, RequestType, WorkerStatus};
use crate::server::worker::{ResultCode, TestResultView};
use crate::table;

verus! {

/// What a request holds.
pub struct RequestView {
    pub id: Seq<char>,
    pub req_type: RequestType,
    pub body: Seq<u8>,
}

/// What a response to a monitor holds.
pub struct ResponseView {
    pub id: Seq<char>,
    pub status: RequestStatus,
    pub test_result: Option<TestResultView>,
}

/// What came from one worker since the last poll.
pub struct EventsView {
    /// Its reports, oldest first.
    pub results: Seq<TestResultView>,
    /// Whether it said that it is ready for a request.
    pub ready: bool,
}

/// The state of the queue. `S` stands for what a monitor is answered through,
/// `C` for what a running test is canceled through.
pub struct QueueModel<S, C> {
    /// The waiting requests, first to run first.
    pub requests: Seq<RequestView>,
    /// How many requests may wait.
    pub capacity: nat,
    /// For each request that was handed to a worker, the reports that no monitor
    /// has taken; the request handed out first comes first.
    pub results: Seq<(Seq<char>, Seq<TestResultView>)>,
    /// How many requests may have reports kept.
    pub result_capacity: nat,
    /// What each worker is doing.
    pub workers: Seq<WorkerStatus>,
    /// The monitors, by the request that they follow.
    pub monitors: Seq<(Seq<char>, S)>,
    /// The status that was last told of a request.
    pub recent: Map<Seq<char>, RequestStatus>,
    /// The cancel channels of the requests that were handed to a worker.
    pub cancels: Seq<(Seq<char>, C)>,
}

/// The identifiers of a sequence of requests.
pub open spec fn request_ids(requests: Seq<RequestView>) -> Seq<Seq<char>> {
    requests.map_values(|r: RequestView| r.id)
}

/// The requests without the first one that has an identifier.
pub open spec fn withdrawn(requests: Seq<RequestView>, id: Seq<char>) -> Seq<RequestView> {
    match request_ids(requests).index_of_first(id) {
        Some(p) => requests.remove(p),
        None => requests,
    }
}

/// The status under which a report is passed on.
pub open spec fn status_of(r: TestResultView) -> RequestStatus {
    if r.result_code == ResultCode::Processing {
        RequestStatus::Processing
    } else {
        RequestStatus::Completed
    }
}

/// The response that passes a report on. The last report of a test carries no output.
pub open spec fn response_of(id: Seq<char>, r: TestResultView) -> ResponseView {
    ResponseView {
        id,
        status: status_of(r),
        test_result: Some(
            if r.result_code == ResultCode::Processing {
                r
            } else {
                TestResultView { output: Seq::empty(), ..r }
            },
        ),
    }
}

/// A response without a report.
pub open spec fn bare_response(id: Seq<char>, status: RequestStatus) -> ResponseView {
    ResponseView { id, status, test_result: None }
}

impl<S, C> QueueModel<S, C> {
    /// Every request that has reports kept has a cancel channel.
    pub open spec fn kept_can_be_canceled(self) -> bool {
        forall|id: Seq<char>|
            #![trigger table::lookup(self.results, id)]
            table::lookup(self.results, id) is Some ==> table::lookup(self.cancels, id) is Some
    }

    /// What every operation keeps: neither the waiting requests nor the kept
    /// reports exceed their capacity, no table holds an identifier twice, and every
    /// request that has reports kept can be canceled.
    pub open spec fn wf(self) -> bool {
        &&& self.requests.len() <= self.capacity <= usize::MAX
        &&& self.results.len() <= self.result_capacity <= usize::MAX
        &&& table::distinct(self.results)
        &&& table::distinct(self.monitors)
        &&& table::distinct(self.cancels)
        &&& self.kept_can_be_canceled()
    }

    /// An empty queue for a number of workers, none of which has said that it is ready.
    pub open spec fn init(capacity: nat, result_capacity: nat, workers: nat) -> Self {
        QueueModel {
            requests: Seq::empty(),
            capacity,
            results: Seq::empty(),
            result_capacity,
            workers: Seq::new(workers, |i: int| WorkerStatus::Busy),
            monitors: Seq::empty(),
            recent: Map::empty(),
            cancels: Seq::empty(),
        }
    }

    /// How many of `n` incoming requests find room.
    pub open spec fn admitted(self, n: nat) -> nat {
        if self.capacity <= self.requests.len() {
            0
        } else if n <= self.capacity - self.requests.len() {
            n
        } else {
            (self.capacity - self.requests.len()) as nat
        }
    }

    /// The queue after requests came in: those that find room wait behind the others.
    pub open spec fn enqueue(self, incoming: Seq<RequestView>) -> Self {
        QueueModel {
            requests: self.requests + incoming.take(self.admitted(incoming.len()) as int),
            ..self
        }
    }

    /// The queue after a report came in. Of a request without an entry nothing is kept.
    pub open spec fn record(self, r: TestResultView) -> Self {
        match table::lookup(self.results, r.id) {
            Some(kept) => QueueModel {
                results: table::put(self.results, r.id, kept.push(r)),
                ..self
            },
            None => self,
        }
    }

    /// The queue after several reports came in.
    pub open spec fn record_all(self, rs: Seq<TestResultView>) -> Self
        decreases rs.len(),
    {
        if rs.len() == 0 {
            self
        } else {
            self.record_all(rs.drop_last()).record(rs.last())
        }
    }

    /// The queue after a worker was heard: its reports are kept, and it is idle if
    /// it said that it is ready.
    pub open spec fn hear(self, worker: int, events: EventsView) -> Self {
        let kept = self.record_all(events.results);
        if events.ready {
            QueueModel { workers: kept.workers.update(worker, WorkerStatus::Idle), ..kept }
        } else {
            kept
        }
    }

    /// Whether a worker is to get a request.
    pub open spec fn hands_out(self, worker: int) -> bool {
        self.workers[worker] == WorkerStatus::Idle && self.requests.len() > 0
    }

    /// The queue without the reports of the oldest request that has some kept, if
    /// there are more of those requests than may be. What was last told of that
    /// request and its monitor go with them. Its cancel channel stays: the test
    /// may still run, and can be canceled until the request is given up.
    pub open spec fn evict(self) -> Self {
        if self.results.len() > self.result_capacity {
            let oldest = self.results[0].0;
            QueueModel {
                results: self.results.drop_first(),
                recent: self.recent.remove(oldest),
                monitors: table::without(self.monitors, oldest),
                ..self
            }
        } else {
            self
        }
    }

    /// The queue after the first waiting request was handed to a worker.
    pub open spec fn hand_out(self, worker: int, cancel: C) -> Self {
        let id = self.requests[0].id;
        (QueueModel {
            requests: self.requests.drop_first(),
            results: table::without(self.results, id).push((id, Seq::empty())),
            workers: self.workers.update(worker, WorkerStatus::Busy),
            cancels: table::put(self.cancels, id, cancel),
            ..self
        }).evict()
    }

    /// The queue after all workers were heard in turn, and the requests handed
    /// out, with their workers. `cancels` are the cancel channels that were opened.
    pub open spec fn serve(self, events: Seq<EventsView>, cancels: Seq<C>) -> (
        Self,
        Seq<(int, RequestView)>,
    )
        decreases events.len(),
    {
        if events.len() == 0 {
            (self, Seq::empty())
        } else {
            let (before, handed) = self.serve(events.drop_last(), cancels);
            let worker = events.len() - 1;
            let heard = before.hear(worker, events.last());
            if heard.hands_out(worker) {
                (
                    heard.hand_out(worker, cancels[handed.len() as int]),
                    handed.push((worker, heard.requests[0])),
                )
            } else {
                (heard, handed)
            }
        }
    }

    /// The queue after monitors came in. A monitor replaces an earlier one of the
    /// same request.
    pub open spec fn watch(self, incoming: Seq<(Seq<char>, S)>) -> Self
        decreases incoming.len(),
    {
        if incoming.len() == 0 {
            self
        } else {
            let before = self.watch(incoming.drop_last());
            QueueModel {
                monitors: table::put(before.monitors, incoming.last().0, incoming.last().1),
                ..before
            }
        }
    }

    /// The place of a request among the waiting ones.
    pub open spec fn position(self, id: Seq<char>) -> Option<int> {
        request_ids(self.requests).index_of_first(id)
    }

    /// The rank under which a waiting request is reported: the first is 1.
    pub open spec fn rank(self, id: Seq<char>) -> RequestStatus {
        RequestStatus::Queued((self.position(id)->0 + 1) as usize)
    }

    /// Whether a rank is what was last told of the request.
    pub open spec fn rank_known(self, id: Seq<char>) -> bool {
        self.recent.dom().contains(id) && self.recent[id] == self.rank(id)
    }

    /// What a monitor is told of its request now.
    pub open spec fn news(self, id: Seq<char>) -> Seq<ResponseView> {
        match table::lookup(self.results, id) {
            Some(kept) => kept.map_values(|r: TestResultView| response_of(id, r)),
            None => if self.position(id) is None {
                seq![bare_response(id, RequestStatus::NotFound)]
            } else if self.rank_known(id) {
                Seq::empty()
            } else {
                seq![bare_response(id, self.rank(id))]
            },
        }
    }

    /// Whether nothing is left to tell of a request after its news.
    pub open spec fn over(self, id: Seq<char>) -> bool {
        match table::lookup(self.results, id) {
            Some(kept) => kept.len() > 0 && kept.last().result_code != ResultCode::Processing,
            None => self.position(id) is None,
        }
    }

    /// The status that is noted as told, if one is.
    pub open spec fn noted(self, id: Seq<char>) -> Option<RequestStatus> {
        match table::lookup(self.results, id) {
            Some(kept) => if kept.len() == 0 || self.over(id) {
                None
            } else {
                Some(RequestStatus::Processing)
            },
            None => if self.position(id) is None {
                Some(RequestStatus::NotFound)
            } else if self.rank_known(id) {
                None
            } else {
                Some(self.rank(id))
            },
        }
    }

    /// The queue after a monitor was told its news: the reports are taken.
    pub open spec fn tell(self, id: Seq<char>) -> Self {
        QueueModel {
            results: if table::lookup(self.results, id) is Some {
                table::put(self.results, id, Seq::empty())
            } else {
                self.results
            },
            recent: match self.noted(id) {
                Some(status) => self.recent.insert(id, status),
                None => self.recent,
            },
            ..self
        }
    }

    /// The queue after the first `n` monitors were told their news.
    pub open spec fn tell_first(self, n: nat) -> Self
        decreases n,
    {
        if n == 0 {
            self
        } else {
            self.tell_first((n - 1) as nat).tell(self.monitors[n - 1].0)
        }
    }

    /// The queue after every monitor was told its news.
    pub open spec fn tell_all(self) -> Self {
        self.tell_first(self.monitors.len())
    }

    /// What the first `n` monitors are told, in their order.
    pub open spec fn news_first(self, n: nat) -> Seq<ResponseView>
        decreases n,
    {
        if n == 0 {
            Seq::empty()
        } else {
            self.news_first((n - 1) as nat) + self.news(self.monitors[n - 1].0)
        }
    }

    /// What all monitors are told, in their order.
    pub open spec fn news_all(self) -> Seq<ResponseView> {
        self.news_first(self.monitors.len())
    }

    /// The requests among those of the first `n` monitors of which nothing is left to tell.
    pub open spec fn over_first(self, n: nat) -> Seq<Seq<char>>
        decreases n,
    {
        if n == 0 {
            Seq::empty()
        } else {
            let before = self.over_first((n - 1) as nat);
            let id = self.monitors[n - 1].0;
            if self.over(id) {
                before.push(id)
            } else {
                before
            }
        }
    }

    /// The monitored requests of which nothing is left to tell.
    pub open spec fn over_all(self) -> Seq<Seq<char>> {
        self.over_first(self.monitors.len())
    }

    /// The queue after a request was given up: it has no monitor, no reports, no
    /// place among the waiting and no cancel channel any more.
    pub open spec fn close(self, id: Seq<char>) -> Self {
        QueueModel {
            requests: withdrawn(self.requests, id),
            results: table::without(self.results, id),
            monitors: table::without(self.monitors, id),
            cancels: table::without(self.cancels, id),
            ..self
        }
    }

    /// The queue after several requests were given up in turn.
    pub open spec fn close_all(self, ids: Seq<Seq<char>>) -> Self
        decreases ids.len(),
    {
        if ids.len() == 0 {
            self
        } else {
            self.close_all(ids.drop_last()).close(ids.last())
        }
    }

    /// The cancel channels through which a signal is sent when several requests
    /// are given up in turn.
    pub open spec fn signals(self, ids: Seq<Seq<char>>) -> Seq<C>
        decreases ids.len(),
    {
        if ids.len() == 0 {
            Seq::empty()
        } else {
            let before = self.signals(ids.drop_last());
            match table::lookup(self.close_all(ids.drop_last()).cancels, ids.last()) {
                Some(cancel) => before.push(cancel),
                None => before,
            }
        }
    }

    /// Handing a request out keeps what every operation keeps.
    pub proof fn lemma_hand_out_wf(self, worker: int, cancel: C)
        requires
            self.wf(),
            self.requests.len() > 0,
        ensures
            self.hand_out(worker, cancel).wf(),
    {
        let id = self.requests[0].id;
        let results = table::without(self.results, id).push((id, Seq::empty()));
        table::lemma_find(self.results, id);
        table::lemma_renew(self.results, id, Seq::<TestResultView>::empty());
        table::lemma_put(self.cancels, id, cancel);
        table::lemma_drop_first(results);
        table::lemma_without(self.monitors, results[0].0);
        table::lemma_without(self.results, id);
        table::lemma_put(table::without(self.results, id), id, Seq::<TestResultView>::empty());
        table::lemma_without(results, results[0].0);
        let after = self.hand_out(worker, cancel);
        assert forall|k: Seq<char>| #![trigger table::lookup(after.results, k)]
            table::lookup(after.results, k) is Some implies table::lookup(
            after.cancels,
            k,
        ) is Some by {
            assert(results == table::put(table::without(self.results, id), id, Seq::empty()));
            assert(table::lookup(results, k) is Some);
            assert(k == id || table::lookup(table::without(self.results, id), k) is Some);
            assert(k == id || table::lookup(self.results, k) is Some);
            assert(after.cancels == table::put(self.cancels, id, cancel));
        }
    }

    /// Serving the workers uses no more cancel channels than requests are handed out.
    pub proof fn lemma_serve_cancels(self, events: Seq<EventsView>, cancels: Seq<C>, more: C)
        requires
            self.serve(events, cancels).1.len() <= cancels.len(),
        ensures
            self.serve(events, cancels.push(more)) == self.serve(events, cancels),
        decreases events.len(),
    {
        if events.len() > 0 {
            self.lemma_serve_cancels(events.drop_last(), cancels, more);
        }
    }

    /// Telling a monitor its news leaves all that is said of other requests as it was.
    pub proof fn lemma_tell(self, id: Seq<char>)
        requires
            self.wf(),
        ensures
            self.tell(id).wf(),
            forall|other: Seq<char>|
                other != id ==> {
                    &&& #[trigger] self.tell(id).news(other) == self.news(other)
                    &&& self.tell(id).over(other) == self.over(other)
                },
    {
        table::lemma_find(self.results, id);
        table::lemma_put(self.results, id, Seq::<TestResultView>::empty());
        let after = self.tell(id);
        assert forall|other: Seq<char>| other != id implies {
            &&& #[trigger] after.news(other) == self.news(other)
            &&& after.over(other) == self.over(other)
        } by {
            assert(table::lookup(after.results, other) == table::lookup(self.results, other));
        }
    }

    /// What the monitors before one are told does not change what that one is told.
    pub proof fn lemma_tell_first(self, n: nat)
        requires
            self.wf(),
            n <= self.monitors.len(),
        ensures
            self.tell_first(n).wf(),
            self.tell_first(n).monitors == self.monitors,
            self.tell_first(n).workers == self.workers,
            self.tell_first(n).requests == self.requests,
            self.tell_first(n).cancels == self.cancels,
            n < self.monitors.len() ==> {
                let id = self.monitors[n as int].0;
                &&& self.tell_first(n).news(id) == self.news(id)
                &&& self.tell_first(n).over(id) == self.over(id)
            },
        decreases n,
    {
        if n > 0 {
            self.lemma_tell_first((n - 1) as nat);
            self.tell_first((n - 1) as nat).lemma_tell(self.monitors[n - 1].0);
        }
        if n < self.monitors.len() {
            assert forall|j: int| 0 <= j < n implies (#[trigger] self.monitors[j]).0
                != self.monitors[n as int].0 by {
                assert(table::keys(self.monitors)[j] != table::keys(self.monitors)[n as int]);
            }
            self.lemma_tell_first_other(n, self.monitors[n as int].0);
        }
    }

    /// What the first monitors are told does not change what is said of a request
    /// that none of them follows.
    pub proof fn lemma_tell_first_other(self, n: nat, id: Seq<char>)
        requires
            self.wf(),
            n <= self.monitors.len(),
            forall|j: int| 0 <= j < n ==> (#[trigger] self.monitors[j]).0 != id,
        ensures
            self.tell_first(n).wf(),
            self.tell_first(n).news(id) == self.news(id),
            self.tell_first(n).over(id) == self.over(id),
        decreases n,
    {
        if n > 0 {
            self.lemma_tell_first_other((n - 1) as nat, id);
            self.tell_first((n - 1) as nat).lemma_tell(self.monitors[n - 1].0);
        }
    }

    /// Giving a request up keeps what every operation keeps.
    pub proof fn lemma_close_wf(self, id: Seq<char>)
        requires
            self.wf(),
        ensures
            self.close(id).wf(),
    {
        request_ids(self.requests).index_of_first_ensures(id);
        table::lemma_find(self.results, id);
        table::lemma_without(self.results, id);
        table::lemma_without(self.monitors, id);
        table::lemma_without(self.cancels, id);
    }

    /// Taking monitors in keeps what every operation keeps and changes nothing but
    /// the monitors.
    pub proof fn lemma_watch(self, incoming: Seq<(Seq<char>, S)>)
        requires
            self.wf(),
        ensures
            self.watch(incoming).wf(),
            self.watch(incoming) == (QueueModel {
                monitors: self.watch(incoming).monitors,
                ..self
            }),
        decreases incoming.len(),
    {
        if incoming.len() > 0 {
            let before = self.watch(incoming.drop_last());
            self.lemma_watch(incoming.drop_last());
            table::lemma_put(before.monitors, incoming.last().0, incoming.last().1);
        }
    }
}

} // verus!
