//! The request queue: it holds the waiting requests, hands them to workers, keeps
//! the reports of running tests and answers monitors.

use std::collections::VecDeque;

use vstd::hash_map::StringHashMap;
use vstd::prelude::*;

use crate::server::model::{EventsView, QueueModel, RequestView, ResponseView};
use crate::server::worker::{ResultCode, TestResult, TestResultView};
use crate::table;
use crate::table::Table;
use crate::text;

verus! {

/// Which lab a request is to be tested for.
#[derive(Debug, Clone, Copy, PartialEq, Eq, Structural)]
pub enum RequestType {
    Lab1,
    Lab2,
    Lab3,
}

/// Where a request stands.
#[derive(Debug, Clone, Copy, PartialEq, Eq, Structural)]
pub enum RequestStatus {
    /// The rank of the request in the queue
    Queued(usize),
    /// The request is being processed, return intermediate result if available
    Processing,
    /// The request is completed with the result
    Completed,
    /// This request is not found
    NotFound,
}

/// What a worker is doing.
#[derive(Debug, Clone, Copy, PartialEq, Eq, Structural)]
pub enum WorkerStatus {
    Idle,
    Busy,
}

/// A request to test an uploaded file.
#[derive(Debug)]
pub struct RequestItem {
    /// Unique identifier for the request
    pub id: String,
    /// Type of the request
    pub req_type: RequestType,
    /// Body of the request
    pub body: Vec<u8>,
}

impl View for RequestItem {
    type V = RequestView;

    open spec fn view(&self) -> RequestView {
        RequestView { id: self.id@, req_type: self.req_type, body: self.body@ }
    }
}

/// What a monitor is told of a request.
#[derive(Debug)]
pub struct RequestResponse {
    /// Unique identifier for the request
    pub id: String,
    /// The status of the request
    pub status: RequestStatus,
    /// The detailed output of the request
    pub test_result: Option<TestResult>,
}

impl View for RequestResponse {
    type V = ResponseView;

    open spec fn view(&self) -> ResponseView {
        ResponseView {
            id: self.id@,
            status: self.status,
            test_result: match self.test_result {
                Some(r) => Some(r@),
                None => None,
            },
        }
    }
}

/// What came from one worker since the last poll.
#[derive(Debug)]
pub struct WorkerEvents {
    /// Its reports, oldest first
    pub results: Vec<TestResult>,
    /// Whether it said that it is ready for a request
    pub ready: bool,
}

impl View for WorkerEvents {
    type V = EventsView;

    open spec fn view(&self) -> EventsView {
        EventsView { results: result_views(self.results@), ready: self.ready }
    }
}

/// A request on its way to a worker. `R` stands for what the worker hears of a
/// cancel signal through.
#[derive(Debug)]
pub struct Dispatch<R> {
    pub worker: usize,
    pub request: RequestItem,
    pub cancel_receiver: R,
}

/// What monitors are to be told, and the requests of which nothing is left to tell then.
#[derive(Debug)]
pub struct MonitorRound {
    pub responses: Vec<RequestResponse>,
    pub finished: Vec<String>,
}

/// All that one poll of the queue sends out.
#[derive(Debug)]
pub struct PollRound<R> {
    /// For each request that came, whether it was taken in
    pub replies: Vec<Result<String, ()>>,
    /// The requests that go to workers
    pub dispatches: Vec<Dispatch<R>>,
    /// What goes to monitors
    pub round: MonitorRound,
}

/// What the requests of a sequence hold.
pub open spec fn request_views(requests: Seq<RequestItem>) -> Seq<RequestView> {
    requests.map_values(|r: RequestItem| r@)
}

/// What the reports of a sequence hold.
pub open spec fn result_views(results: Seq<TestResult>) -> Seq<TestResultView> {
    results.map_values(|r: TestResult| r@)
}

/// What the responses of a sequence hold.
pub open spec fn response_views(responses: Seq<RequestResponse>) -> Seq<ResponseView> {
    responses.map_values(|r: RequestResponse| r@)
}

/// What came from each worker.
pub open spec fn event_views(events: Seq<WorkerEvents>) -> Seq<EventsView> {
    events.map_values(|e: WorkerEvents| e@)
}

/// The monitors of a sequence, by the request that they follow.
pub open spec fn monitor_views<S>(monitors: Seq<(String, S)>) -> Seq<(Seq<char>, S)> {
    monitors.map_values(|m: (String, S)| (m.0@, m.1))
}

/// Whether a call of `open` may return these two ends of a cancel channel.
pub open spec fn opened<C, R, F: Fn() -> (C, R)>(open: F, cancel: C, receiver: R) -> bool {
    call_ensures(open, (), (cancel, receiver))
}

/// The requests that were handed out, with their workers.
pub open spec fn dispatch_views<R>(dispatches: Seq<Dispatch<R>>) -> Seq<(int, RequestView)> {
    dispatches.map_values(|d: Dispatch<R>| (d.worker as int, d.request@))
}

/// Whether `after` and the dispatches are what serving the workers in `before`
/// gives, when `open` returned the cancel channels `cancels` one by one.
pub open spec fn served<S, C, R, F: Fn() -> (C, R)>(
    before: QueueModel<S, C>,
    events: Seq<EventsView>,
    open: F,
    after: QueueModel<S, C>,
    dispatches: Seq<Dispatch<R>>,
    cancels: Seq<C>,
) -> bool {
    &&& cancels.len() == dispatches.len()
    &&& forall|k: int|
        0 <= k < dispatches.len() ==> opened(
            open,
            #[trigger] cancels[k],
            dispatches[k].cancel_receiver,
        )
    &&& before.serve(events, cancels) == (after, dispatch_views(dispatches))
}

/// Whether the replies say of each request whether it finds room, and name those that do.
pub open spec fn replied<S, C>(
    before: QueueModel<S, C>,
    incoming: Seq<RequestItem>,
    replies: Seq<Result<String, ()>>,
) -> bool {
    &&& replies.len() == incoming.len()
    &&& forall|i: int|
        0 <= i < incoming.len() ==> match #[trigger] replies[i] {
            Ok(id) => i < before.admitted(incoming.len()) && id@ == incoming[i].id@,
            Err(_) => i >= before.admitted(incoming.len()),
        }
}

/// Whether `after` and the round are what taking the monitors in and asking for
/// their news in `before` gives.
pub open spec fn reported<S, C>(
    before: QueueModel<S, C>,
    monitors: Seq<(String, S)>,
    after: QueueModel<S, C>,
    round: MonitorRound,
) -> bool {
    let watched = before.watch(monitor_views(monitors));
    &&& after == watched.tell_all()
    &&& response_views(round.responses@) == watched.news_all()
    &&& text::texts(round.finished@) == watched.over_all()
}

/// The reports of a table entry.
spec fn kept() -> spec_fn(Vec<TestResult>) -> Seq<TestResultView> {
    |v: Vec<TestResult>| result_views(v@)
}

/// Unified request queue for the server
///
/// The queue holds the waiting requests, the reports of the tests that run, and
/// the monitors. `S` is what a monitor is answered through, `C` what a running
/// test is canceled through; the queue carries both and looks into neither.
pub struct Queue<S, C> {
    /// Internal queue to hold requests
    requests: VecDeque<RequestItem>,
    /// Maximum capacity of the queue
    capacity: usize,
    /// Result list
    result: Table<Vec<TestResult>>,
    /// Result capacity
    result_capacity: usize,
    /// Worker status
    worker_status: Vec<WorkerStatus>,
    /// monitor response using this channel, one channel to one request
    monitor_response_channel: Table<S>,
    /// recent monitor result
    recent_monitor_result: StringHashMap<RequestStatus>,
    /// request cancel channel
    request_cancel_channel: Table<C>,
}

impl<S, C> View for Queue<S, C> {
    type V = QueueModel<S, C>;

    closed spec fn view(&self) -> QueueModel<S, C> {
        QueueModel {
            requests: request_views(self.requests@),
            capacity: self.capacity as nat,
            results: table::image(self.result@, kept()),
            result_capacity: self.result_capacity as nat,
            workers: self.worker_status@,
            monitors: self.monitor_response_channel@,
            recent: self.recent_monitor_result@,
            cancels: self.request_cancel_channel@,
        }
    }
}

impl<S, C> Queue<S, C> {
    /// Create a new request queue
    pub fn new(capacity: usize, result_capacity: usize, worker_num: usize) -> (queue: Self)
        ensures
            queue@ == QueueModel::<S, C>::init(
                capacity as nat,
                result_capacity as nat,
                worker_num as nat,
            ),
            queue@.wf(),
    {
        let mut worker_status: Vec<WorkerStatus> = Vec::new();
        let mut i: usize = 0;
        while i < worker_num
            invariant
                i <= worker_num,
                worker_status@ == Seq::new(i as nat, |j: int| WorkerStatus::Busy),
            decreases worker_num - i,
        {
            worker_status.push(WorkerStatus::Busy);
            i += 1;
        }
        let queue = Queue {
            requests: VecDeque::new(),
            capacity,
            result: Table::new(),
            result_capacity,
            worker_status,
            monitor_response_channel: Table::new(),
            recent_monitor_result: StringHashMap::new(),
            request_cancel_channel: Table::new(),
        };
        proof {
            assert(queue@.requests =~= Seq::empty());
            assert(queue@.results =~= Seq::empty());
            assert forall|id: Seq<char>|
                #![trigger table::lookup(queue@.results, id)]
                table::lookup(queue@.results, id) is None by {
                table::lemma_find(queue@.results, id);
            }
        }
        queue
    }

    /// Takes a request in if there is room for it.
    fn accept(&mut self, request: RequestItem) -> (reply: Result<String, ()>)
        requires
            old(self)@.wf(),
        ensures
            final(self)@.wf(),
            old(self)@.requests.len() < old(self)@.capacity ==> {
                &&& reply matches Ok(id) && id@ == request.id@
                &&& final(self)@ == (QueueModel {
                    requests: old(self)@.requests.push(request@),
                    ..old(self)@
                })
            },
            old(self)@.requests.len() >= old(self)@.capacity ==> reply is Err && *final(self)
                == *old(self),
    {
        if self.requests.len() < self.capacity {
            let id = request.id.clone();
            self.requests.push_back(request);
            assert(self@.requests =~= old(self)@.requests.push(request@));
            Ok(id)
        } else {
            Err(())
        }
    }

    /// Takes in the requests that came, as far as there is room, and says of each
    /// whether it was taken: with its identifier if it was.
    pub fn poll_request_channel(&mut self, incoming: Vec<RequestItem>) -> (replies: Vec<
        Result<String, ()>,
    >)
        requires
            old(self)@.wf(),
        ensures
            final(self)@.wf(),
            final(self)@ == old(self)@.enqueue(request_views(incoming@)),
            replied(old(self)@, incoming@, replies@),
    {
        let mut replies: Vec<Result<String, ()>> = Vec::new();
        let ghost all = request_views(incoming@);
        let ghost before = self@;
        assert(before.enqueue(all.take(0)).requests =~= before.requests);
        for request in it: incoming
            invariant
                it.seq() == incoming@,
                all == request_views(incoming@),
                before.wf(),
                self@.wf(),
                self@ == before.enqueue(all.take(it.index())),
                replies@.len() == it.index(),
                forall|i: int|
                    0 <= i < it.index() ==> match #[trigger] replies@[i] {
                        Ok(id) => i < before.admitted(incoming@.len()) && id@ == incoming@[i].id@,
                        Err(_) => i >= before.admitted(incoming@.len()),
                    },
        {
            let ghost n = it.index();
            let ghost current = self@;
            let reply = self.accept(request);
            proof {
                let room = before.admitted((n + 1) as nat);
                assert(all.take(n + 1).take(room as int) =~= if room == n + 1 {
                    all.take(n).take(n).push(request@)
                } else {
                    all.take(n).take(before.admitted(n as nat) as int)
                });
                assert(before.enqueue(all.take(n + 1)).requests =~= self@.requests);
            }
            replies.push(reply);
        }
        assert(all.take(all.len() as int) =~= all);
        replies
    }

    /// Keeps a report, if its request has an entry.
    fn record(&mut self, result: TestResult)
        requires
            old(self)@.wf(),
        ensures
            final(self)@.wf(),
            final(self)@ == old(self)@.record(result@),
    {
        proof {
            table::lemma_image(self.result@, kept());
        }
        if let Some(i) = self.result.position(&result.id) {
            let ghost before = *self;
            let entry = self.result.value_mut(i);
            entry.push(result);
            proof {
                let was = before@.results[i as int].1;
                let now = self.result@[i as int].1;
                assert(result_views(now@) =~= was.push(result@));
                assert(self@.results =~= before@.results.update(
                    i as int,
                    (result.id@, was.push(result@)),
                ));
                table::lemma_put(before@.results, result.id@, was.push(result@));
            }
        }
    }

    /// Hears a worker: keeps its reports, and marks it idle if it said that it is ready.
    fn hear(&mut self, worker: usize, events: WorkerEvents)
        requires
            old(self)@.wf(),
            worker < old(self)@.workers.len(),
        ensures
            final(self)@.wf(),
            final(self)@ == old(self)@.hear(worker as int, events@),
            final(self)@.workers.len() == old(self)@.workers.len(),
    {
        let ghost before = self@;
        let ghost all = result_views(events.results@);
        let ready = events.ready;
        let results = events.results;
        for result in it: results
            invariant
                it.seq() == results@,
                all == result_views(results@),
                self@.wf(),
                self@ == before.record_all(all.take(it.index())),
                self@.workers == before.workers,
        {
            let ghost n = it.index();
            self.record(result);
            proof {
                assert(all.take(n + 1).drop_last() =~= all.take(n));
                assert(all.take(n + 1).last() == result@);
            }
        }
        assert(all.take(all.len() as int) =~= all);
        if ready {
            self.worker_status[worker] = WorkerStatus::Idle;
        }
    }

    /// Drops the oldest kept reports if those of too many requests are kept. The
    /// cancel channel of that request stays.
    fn evict(&mut self)
        ensures
            final(self)@ == old(self)@.evict(),
    {
        if self.result.len() > self.result_capacity {
            let ghost before = *self;
            let oldest = self.result.take_first();
            self.recent_monitor_result.remove(oldest.key.as_str());
            let _ = self.monitor_response_channel.take(&oldest.key);
            proof {
                assert(self@.results =~= before@.results.drop_first());
            }
        }
    }

    /// Hears a worker and, if it is idle and a request waits, hands it the first one,
    /// with a cancel channel that `open` makes.
    fn serve<R, F: Fn() -> (C, R)>(&mut self, worker: usize, events: WorkerEvents, open: &F) -> (r:
        Option<Dispatch<R>>)
        requires
            old(self)@.wf(),
            worker < old(self)@.workers.len(),
            call_requires(*open, ()),
        ensures
            final(self)@.wf(),
            final(self)@.workers.len() == old(self)@.workers.len(),
            ({
                let heard = old(self)@.hear(worker as int, events@);
                match r {
                    Some(d) => {
                        &&& heard.hands_out(worker as int)
                        &&& d.worker == worker
                        &&& d.request@ == heard.requests[0]
                        &&& exists|cancel: C|
                            {
                                &&& #[trigger] opened(*open, cancel, d.cancel_receiver)
                                &&& final(self)@ == heard.hand_out(worker as int, cancel)
                            }
                    },
                    None => !heard.hands_out(worker as int) && final(self)@ == heard,
                }
            }),
    {
        self.hear(worker, events);
        if self.worker_status[worker] == WorkerStatus::Busy {
            return None;
        }
        let ghost heard = *self;
        match self.requests.pop_front() {
            Some(request) => {
                let id = request.id.clone();
                let (cancel, cancel_receiver) = open();
                proof {
                    heard@.lemma_hand_out_wf(worker as int, cancel);
                    table::lemma_image(heard.result@, kept());
                    table::lemma_image(table::without(heard.result@, id@), kept());
                    table::lemma_renew(heard@.results, id@, Seq::<TestResultView>::empty());
                    table::lemma_put(heard@.cancels, id@, cancel);
                }
                let _ = self.result.take(&id);
                let none: Vec<TestResult> = Vec::new();
                assert(result_views(none@) =~= Seq::<TestResultView>::empty());
                self.result.put(id.clone(), none);
                self.request_cancel_channel.put(id, cancel);
                self.worker_status[worker] = WorkerStatus::Busy;
                proof {
                    assert(self@.requests =~= heard@.requests.drop_first());
                }
                self.evict();
                let dispatch = Dispatch { worker, request, cancel_receiver };
                assert(opened(*open, cancel, dispatch.cancel_receiver));
                assert(self@ == old(self)@.hear(worker as int, events@).hand_out(
                    worker as int,
                    cancel,
                ));
                Some(dispatch)
            },
            None => None,
        }
    }

    /// Hears the workers in turn and hands waiting requests to those that are idle,
    /// each with a cancel channel that `open` makes.
    pub fn poll_worker_channel<R, F: Fn() -> (C, R)>(
        &mut self,
        events: Vec<WorkerEvents>,
        open: &F,
    ) -> (dispatches: Vec<Dispatch<R>>)
        requires
            old(self)@.wf(),
            events@.len() == old(self)@.workers.len(),
            call_requires(*open, ()),
        ensures
            final(self)@.wf(),
            final(self)@.workers.len() == old(self)@.workers.len(),
            exists|cancels: Seq<C>|
                served(
                    old(self)@,
                    event_views(events@),
                    *open,
                    final(self)@,
                    dispatches@,
                    cancels,
                ),
    {
        let mut dispatches: Vec<Dispatch<R>> = Vec::new();
        let mut worker: usize = 0;
        let count = events.len();
        let ghost before = self@;
        let ghost all = event_views(events@);
        let ghost mut cancels: Seq<C> = Seq::empty();
        assert(dispatch_views(dispatches@) =~= before.serve(all.take(0), cancels).1);
        for heard in it: events
            invariant
                it.seq() == events@,
                all == event_views(events@),
                worker == it.index(),
                count == events@.len(),
                self@.wf(),
                self@.workers.len() == before.workers.len() == events@.len(),
                call_requires(*open, ()),
                served(before, all.take(worker as int), *open, self@, dispatches@, cancels),
        {
            let ghost so_far = self@;
            proof {
                assert(all.take(worker + 1).drop_last() =~= all.take(worker as int));
                assert(all.take(worker + 1).last() == heard@);
            }
            match self.serve(worker, heard, open) {
                Some(dispatch) => {
                    proof {
                        let cancel = choose|cancel: C|
                            {
                                &&& #[trigger] opened(*open, cancel, dispatch.cancel_receiver)
                                &&& self@ == so_far.hear(worker as int, heard@).hand_out(
                                    worker as int,
                                    cancel,
                                )
                            };
                        before.lemma_serve_cancels(all.take(worker as int), cancels, cancel);
                        cancels = cancels.push(cancel);
                        assert(dispatch_views(dispatches@.push(dispatch)) =~= dispatch_views(
                            dispatches@,
                        ).push((worker as int, dispatch.request@)));
                    }
                    dispatches.push(dispatch);
                },
                None => {},
            }
            worker += 1;
        }
        assert(all.take(all.len() as int) =~= all);
        dispatches
    }

    /// Takes in the monitors that came.
    fn watch(&mut self, incoming: Vec<(String, S)>)
        requires
            old(self)@.wf(),
        ensures
            final(self)@.wf(),
            final(self)@ == old(self)@.watch(monitor_views(incoming@)),
    {
        let ghost before = self@;
        let ghost all = monitor_views(incoming@);
        for monitor in it: incoming
            invariant
                it.seq() == incoming@,
                all == monitor_views(incoming@),
                self@.wf(),
                self@ == before.watch(all.take(it.index())),
        {
            let ghost n = it.index();
            proof {
                assert(all.take(n + 1).drop_last() =~= all.take(n));
                assert(all.take(n + 1).last() == (monitor.0@, monitor.1));
                table::lemma_put(self@.monitors, monitor.0@, monitor.1);
            }
            self.monitor_response_channel.put(monitor.0, monitor.1);
        }
        assert(all.take(all.len() as int) =~= all);
    }

    /// The place of a request among the waiting ones.
    fn position(&self, id: &String) -> (r: Option<usize>)
        ensures
            match r {
                Some(p) => self@.position(id@) == Some(p as int) && p < self@.requests.len(),
                None => self@.position(id@) is None,
            },
    {
        let ghost ids = crate::server::model::request_ids(self@.requests);
        let mut i: usize = 0;
        while i < self.requests.len()
            invariant
                i <= self.requests@.len(),
                ids == crate::server::model::request_ids(self@.requests),
                forall|j: int| 0 <= j < i ==> ids[j] != id@,
            decreases self.requests@.len() - i,
        {
            if self.requests[i].id == *id {
                proof {
                    assert(ids[i as int] == id@);
                    ids.index_of_first_ensures(id@);
                }
                return Some(i);
            }
            assert(ids[i as int] != id@);
            i += 1;
        }
        proof {
            ids.index_of_first_ensures(id@);
        }
        None
    }

    /// The response that passes a report on. The last report of a test carries no output.
    fn pass_on(id: &String, result: TestResult) -> (response: RequestResponse)
        ensures
            response@ == crate::server::model::response_of(id@, result@),
    {
        if result.result_code == ResultCode::Processing {
            RequestResponse {
                id: id.clone(),
                status: RequestStatus::Processing,
                test_result: Some(result),
            }
        } else {
            RequestResponse {
                id: id.clone(),
                status: RequestStatus::Completed,
                test_result: Some(TestResult { output: String::new(), ..result }),
            }
        }
    }

    /// Takes what a monitor is to be told of its request, and whether nothing is
    /// left to tell then.
    fn tell(&mut self, id: &String) -> (r: (Vec<RequestResponse>, bool))
        requires
            old(self)@.wf(),
        ensures
            final(self)@.wf(),
            final(self)@ == old(self)@.tell(id@),
            response_views(r.0@) == old(self)@.news(id@),
            r.1 == old(self)@.over(id@),
    {
        let ghost before = *self;
        let mut responses: Vec<RequestResponse> = Vec::new();
        proof {
            before@.lemma_tell(id@);
            table::lemma_image(self.result@, kept());
        }
        match self.result.position(id) {
            Some(i) => {
                let mut taken: Vec<TestResult> = Vec::new();
                std::mem::swap(self.result.value_mut(i), &mut taken);
                let ghost all = result_views(taken@);
                proof {
                    assert(all == before@.results[i as int].1);
                    assert(result_views(self.result@[i as int].1@) =~= Seq::<
                        TestResultView,
                    >::empty());
                    assert(self@.results =~= table::put(
                        before@.results,
                        id@,
                        Seq::<TestResultView>::empty(),
                    ));
                }
                if taken.len() == 0 {
                    assert(response_views(responses@) =~= before@.news(id@));
                    return (responses, false);
                }
                let over = taken[taken.len() - 1].result_code != ResultCode::Processing;
                for result in it: taken
                    invariant
                        it.seq() == taken@,
                        all == result_views(taken@),
                        responses@.len() == it.index(),
                        forall|j: int|
                            0 <= j < it.index() ==> (#[trigger] responses@[j])@
                                == crate::server::model::response_of(id@, all[j]),
                {
                    responses.push(Self::pass_on(id, result));
                }
                assert(response_views(responses@) =~= before@.news(id@));
                if !over {
                    self.recent_monitor_result.insert(id.clone(), RequestStatus::Processing);
                }
                (responses, over)
            },
            None => {
                match self.position(id) {
                    Some(p) => {
                        let rank = RequestStatus::Queued(p + 1);
                        let known = match self.recent_monitor_result.get(id.as_str()) {
                            Some(status) => *status == rank,
                            None => false,
                        };
                        if !known {
                            responses.push(
                                RequestResponse { id: id.clone(), status: rank, test_result: None },
                            );
                            self.recent_monitor_result.insert(id.clone(), rank);
                        }
                        assert(response_views(responses@) =~= before@.news(id@));
                        (responses, false)
                    },
                    None => {
                        responses.push(
                            RequestResponse {
                                id: id.clone(),
                                status: RequestStatus::NotFound,
                                test_result: None,
                            },
                        );
                        self.recent_monitor_result.insert(id.clone(), RequestStatus::NotFound);
                        assert(response_views(responses@) =~= before@.news(id@));
                        (responses, true)
                    },
                }
            },
        }
    }

    /// Takes in the monitors that came, and takes what each monitor is to be told.
    pub fn poll_monitor_channel(&mut self, incoming: Vec<(String, S)>) -> (round: MonitorRound)
        requires
            old(self)@.wf(),
        ensures
            final(self)@.wf(),
            final(self)@.workers == old(self)@.workers,
            reported(old(self)@, incoming@, final(self)@, round),
    {
        self.watch(incoming);
        let ghost watched = self@;
        let mut responses: Vec<RequestResponse> = Vec::new();
        let mut finished: Vec<String> = Vec::new();
        let mut i: usize = 0;
        let n = self.monitor_response_channel.len();
        assert(response_views(responses@) =~= watched.news_first(0));
        assert(text::texts(finished@) =~= watched.over_first(0));
        while i < n
            invariant
                i <= n == watched.monitors.len(),
                watched.wf(),
                self@.wf(),
                self@ == watched.tell_first(i as nat),
                self@.monitors == watched.monitors,
                response_views(responses@) == watched.news_first(i as nat),
                text::texts(finished@) == watched.over_first(i as nat),
            decreases n - i,
        {
            let id = self.monitor_response_channel.key_at(i).clone();
            proof {
                watched.lemma_tell_first(i as nat);
            }
            let ghost was = responses@;
            let (mut news, over) = self.tell(&id);
            let ghost told = news@;
            responses.append(&mut news);
            assert(response_views(was + told) =~= response_views(was) + response_views(told));
            if over {
                assert(text::texts(finished@.push(id)) =~= text::texts(finished@).push(id@));
                finished.push(id);
            }
            i += 1;
        }
        proof {
            watched.lemma_tell_first(n as nat);
            old(self)@.lemma_watch(monitor_views(incoming@));
        }
        MonitorRound { responses, finished }
    }

    /// Where a monitored request is answered.
    pub fn monitor(&self, id: &String) -> (r: Option<&S>)
        ensures
            match table::lookup(self@.monitors, id@) {
                Some(s) => r == Some(&s),
                None => r is None,
            },
    {
        self.monitor_response_channel.get(id)
    }

    /// Gives a request up.
    fn close(&mut self, id: &String) -> (cancel: Option<C>)
        requires
            old(self)@.wf(),
        ensures
            final(self)@.wf(),
            final(self)@ == old(self)@.close(id@),
            cancel == table::lookup(old(self)@.cancels, id@),
    {
        let ghost before = *self;
        proof {
            before@.lemma_close_wf(id@);
            table::lemma_image(self.result@, kept());
        }
        let _ = self.monitor_response_channel.take(id);
        let _ = self.result.take(id);
        if let Some(p) = self.position(id) {
            let _ = self.requests.remove(p);
            assert(self@.requests =~= before@.requests.remove(p as int));
        }
        self.request_cancel_channel.take(id)
    }

    /// Gives up the requests of which nothing is left to tell, and those whose
    /// monitor could not be told. Returns the cancel channels that are to get a signal.
    pub fn settle(&mut self, finished: Vec<String>, failed: Vec<String>) -> (signals: Vec<C>)
        requires
            old(self)@.wf(),
        ensures
            final(self)@.wf(),
            final(self)@.workers == old(self)@.workers,
            ({
                let ids = text::texts(finished@) + text::texts(failed@);
                &&& final(self)@ == old(self)@.close_all(ids)
                &&& signals@ == old(self)@.signals(ids)
            }),
    {
        let mut signals: Vec<C> = Vec::new();
        let ghost before = self@;
        let ghost ids = text::texts(finished@) + text::texts(failed@);
        let mut given_up = finished;
        let mut more = failed;
        given_up.append(&mut more);
        assert(text::texts(given_up@) =~= ids);
        let mut i: usize = 0;
        while i < given_up.len()
            invariant
                i <= given_up@.len() == ids.len(),
                text::texts(given_up@) == ids,
                self@.wf(),
                self@ == before.close_all(ids.take(i as int)),
                self@.workers == before.workers,
                signals@ == before.signals(ids.take(i as int)),
            decreases given_up@.len() - i,
        {
            proof {
                assert(ids.take(i + 1).drop_last() =~= ids.take(i as int));
                assert(ids.take(i + 1).last() == given_up@[i as int]@);
            }
            if let Some(cancel) = self.close(&given_up[i]) {
                signals.push(cancel);
            }
            i += 1;
        }
        assert(ids.take(ids.len() as int) =~= ids);
        signals
    }

    /// One turn of the queue: takes in the requests that came, then hears the
    /// workers, then takes in the monitors that came and takes their news. When
    /// the news were sent, [`Queue::settle`] ends the turn.
    pub fn poll<R, F: Fn() -> (C, R)>(
        &mut self,
        requests: Vec<RequestItem>,
        events: Vec<WorkerEvents>,
        monitors: Vec<(String, S)>,
        open: &F,
    ) -> (turn: PollRound<R>)
        requires
            old(self)@.wf(),
            events@.len() == old(self)@.workers.len(),
            call_requires(*open, ()),
        ensures
            final(self)@.wf(),
            final(self)@.workers.len() == old(self)@.workers.len(),
            replied(old(self)@, requests@, turn.replies@),
            exists|after: QueueModel<S, C>, cancels: Seq<C>|
                {
                    &&& #[trigger] served(
                        old(self)@.enqueue(request_views(requests@)),
                        event_views(events@),
                        *open,
                        after,
                        turn.dispatches@,
                        cancels,
                    )
                    &&& reported(after, monitors@, final(self)@, turn.round)
                },
    {
        let replies = self.poll_request_channel(requests);
        let ghost enqueued = self@;
        let dispatches = self.poll_worker_channel(events, open);
        let ghost after = self@;
        let ghost cancels = choose|cancels: Seq<C>|
            served(enqueued, event_views(events@), *open, after, dispatches@, cancels);
        let round = self.poll_monitor_channel(monitors);
        let turn = PollRound { replies, dispatches, round };
        proof {
            assert(served(
                old(self)@.enqueue(request_views(requests@)),
                event_views(events@),
                *open,
                after,
                turn.dispatches@,
                cancels,
            ));
        }
        turn
    }
}

} // verus!
