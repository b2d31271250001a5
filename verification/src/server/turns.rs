//! What holds of the queue over turns: a turn takes in what came, hands requests
//! out, tells the monitors and settles.

use vstd::prelude::*;

use crate::server::laws;
use crate::server::model;
use crate::server::model::{EventsView, QueueModel, RequestView, ResponseView};
use crate::server::queue;
use crate::server::queue::{Dispatch, MonitorRound, RequestItem, WorkerEvents, WorkerStatus};
use crate::server::worker::{RunOutcomeView, TestResultView};
use crate::table;
use crate::text;

verus! {

/// What comes to the queue in one turn.
pub struct TurnView<S, C> {
    /// The requests that came
    pub incoming: Seq<RequestView>,
    /// What came from each worker
    pub events: Seq<EventsView>,
    /// The cancel channels that were opened
    pub cancels: Seq<C>,
    /// The monitors that came
    pub monitors: Seq<(Seq<char>, S)>,
    /// The requests whose monitor could not be told
    pub failed: Seq<Seq<char>>,
}

/// What became of the requests over several turns.
pub struct History {
    /// The requests that were taken in
    pub taken: Seq<RequestView>,
    /// The requests that were handed out, with their workers
    pub handed: Seq<(int, RequestView)>,
    /// The requests that were given up while they waited
    pub withdrawn: Seq<RequestView>,
}

impl<S, C> QueueModel<S, C> {
    /// The requests that stop waiting when several are given up in turn.
    pub open spec fn withdrawals(self, ids: Seq<Seq<char>>) -> Seq<RequestView>
        decreases ids.len(),
    {
        if ids.len() == 0 {
            Seq::empty()
        } else {
            let before = self.close_all(ids.drop_last());
            match before.position(ids.last()) {
                Some(p) => self.withdrawals(ids.drop_last()).push(before.requests[p]),
                None => self.withdrawals(ids.drop_last()),
            }
        }
    }

    /// The queue after the first part of a turn, with the requests that were handed
    /// out: requests were taken in, workers heard, requests handed out and monitors
    /// taken in.
    pub open spec fn polled(self, t: TurnView<S, C>) -> (Self, Seq<(int, RequestView)>) {
        let (after, handed) = self.enqueue(t.incoming).serve(t.events, t.cancels);
        (after.watch(t.monitors), handed)
    }

    /// The requests that are given up at the end of a turn.
    pub open spec fn given_up(self, t: TurnView<S, C>) -> Seq<Seq<char>> {
        self.polled(t).0.over_all() + t.failed
    }

    /// The queue after a turn.
    pub open spec fn turn(self, t: TurnView<S, C>) -> Self {
        self.polled(t).0.tell_all().close_all(self.given_up(t))
    }

    /// The queue after several turns.
    pub open spec fn turns(self, ts: Seq<TurnView<S, C>>) -> Self
        decreases ts.len(),
    {
        if ts.len() == 0 {
            self
        } else {
            self.turns(ts.drop_last()).turn(ts.last())
        }
    }

    /// What became of the requests over several turns.
    pub open spec fn history(self, ts: Seq<TurnView<S, C>>) -> History
        decreases ts.len(),
    {
        if ts.len() == 0 {
            History { taken: Seq::empty(), handed: Seq::empty(), withdrawn: Seq::empty() }
        } else {
            let h = self.history(ts.drop_last());
            let m = self.turns(ts.drop_last());
            let t = ts.last();
            History {
                taken: h.taken + t.incoming.take(m.admitted(t.incoming.len()) as int),
                handed: h.handed + m.polled(t).1,
                withdrawn: h.withdrawn + m.polled(t).0.tell_all().withdrawals(m.given_up(t)),
            }
        }
    }

    /// Giving requests up takes the withdrawn ones out of those that wait.
    proof fn lemma_withdrawals(self, ids: Seq<Seq<char>>)
        ensures
            self.requests.to_multiset() == self.close_all(ids).requests.to_multiset().add(
                self.withdrawals(ids).to_multiset(),
            ),
        decreases ids.len(),
    {
        broadcast use vstd::seq_lib::group_to_multiset_ensures;
        broadcast use vstd::multiset::group_multiset_axioms;

        if ids.len() == 0 {
            assert(self.requests.to_multiset() =~= self.requests.to_multiset().add(
                Seq::<RequestView>::empty().to_multiset(),
            ));
        } else {
            let init = ids.drop_last();
            let before = self.close_all(init);
            self.lemma_withdrawals(init);
            model::request_ids(before.requests).index_of_first_ensures(ids.last());
            if let Some(p) = before.position(ids.last()) {
                let gone = before.requests[p];
                assert(before.requests.to_multiset().count(gone) > 0);
                assert(self.close_all(ids).requests == before.requests.remove(p));
                assert(self.close_all(ids).requests.to_multiset().add(
                    self.withdrawals(ids).to_multiset(),
                ) =~= before.requests.to_multiset().add(self.withdrawals(init).to_multiset()));
            }
        }
    }

    /// What a turn does to the waiting requests and the workers, apart from what is
    /// given up at its end.
    proof fn lemma_turn(self, t: TurnView<S, C>)
        requires
            self.wf(),
            t.events.len() == self.workers.len(),
        ensures
            self.turn(t).wf(),
            self.turn(t).workers.len() == self.workers.len(),
            self.polled(t).0.wf(),
            self.polled(t).0.tell_all().wf(),
            self.polled(t).0.tell_all().requests == self.polled(t).0.requests,
            self.turn(t).workers == self.enqueue(t.incoming).serve(t.events, t.cancels).0.workers,
            laws::handed_requests(self.polled(t).1) + self.polled(t).0.requests == self.requests
                + t.incoming.take(self.admitted(t.incoming.len()) as int),
    {
        let enqueued = self.enqueue(t.incoming);
        let after = enqueued.serve(t.events, t.cancels).0;
        let watched = self.polled(t).0;
        enqueued.lemma_serve(t.events, t.cancels);
        after.lemma_watch(t.monitors);
        watched.lemma_tell_first(watched.monitors.len());
        laws::law_given_up(watched.tell_all(), self.given_up(t));
    }
}

/// [`Queue::poll`] and then [`Queue::settle`] make a turn: what the two say of the
/// queue, the dispatches and the round is what a turn does.
///
/// [`Queue::poll`]: crate::server::queue::Queue::poll
/// [`Queue::settle`]: crate::server::queue::Queue::settle
pub proof fn law_poll_and_settle_are_a_turn<S, C, R, F: Fn() -> (C, R)>(
    before: QueueModel<S, C>,
    requests: Seq<RequestItem>,
    events: Seq<WorkerEvents>,
    monitors: Seq<(String, S)>,
    failed: Seq<Seq<char>>,
    open: F,
    after: QueueModel<S, C>,
    dispatches: Seq<Dispatch<R>>,
    cancels: Seq<C>,
    told: QueueModel<S, C>,
    round: MonitorRound,
)
    requires
        queue::served(
            before.enqueue(queue::request_views(requests)),
            queue::event_views(events),
            open,
            after,
            dispatches,
            cancels,
        ),
        queue::reported(after, monitors, told, round),
    ensures
        ({
            let t = TurnView {
                incoming: queue::request_views(requests),
                events: queue::event_views(events),
                cancels,
                monitors: queue::monitor_views(monitors),
                failed,
            };
            &&& queue::dispatch_views(dispatches) == before.polled(t).1
            &&& queue::response_views(round.responses@) == before.polled(t).0.news_all()
            &&& text::texts(round.finished@) + failed == before.given_up(t)
            &&& told.close_all(text::texts(round.finished@) + failed) == before.turn(t)
        }),
{
}

/// Whether a sequence is made of elements of another one, found at these places,
/// which increase.
pub open spec fn picked<A>(part: Seq<A>, whole: Seq<A>, places: Seq<int>) -> bool {
    &&& places.len() == part.len()
    &&& forall|i: int|
        0 <= i < part.len() ==> 0 <= #[trigger] places[i] < whole.len() && part[i]
            == whole[places[i]]
    &&& forall|i: int, j: int|
        0 <= i < j < part.len() ==> #[trigger] places[i] < #[trigger] places[j]
}

/// Whether a sequence is another one with some elements left out.
pub open spec fn in_order<A>(part: Seq<A>, whole: Seq<A>) -> bool {
    exists|places: Seq<int>| picked(part, whole, places)
}

pub proof fn lemma_in_order_same<A>(s: Seq<A>)
    ensures
        in_order(s, s),
{
    assert(picked(s, s, Seq::new(s.len(), |i: int| i)));
}

proof fn lemma_in_order_add<A>(part: Seq<A>, whole: Seq<A>, more: Seq<A>)
    requires
        in_order(part, whole),
    ensures
        in_order(part + more, whole + more),
{
    let places = choose|places: Seq<int>| picked(part, whole, places);
    let new = places + Seq::new(more.len(), |i: int| whole.len() + i);
    assert(picked(part + more, whole + more, new));
}

pub proof fn lemma_in_order_remove<A>(part: Seq<A>, whole: Seq<A>, p: int)
    requires
        in_order(part, whole),
        0 <= p < part.len(),
    ensures
        in_order(part.remove(p), whole),
{
    let places = choose|places: Seq<int>| picked(part, whole, places);
    let rest = part.remove(p);
    let new = places.remove(p);
    assert forall|i: int| 0 <= i < rest.len() implies 0 <= #[trigger] new[i] < whole.len()
        && rest[i] == whole[new[i]] by {
        let i0 = if i < p { i } else { i + 1 };
        assert(new[i] == places[i0]);
    }
    assert forall|i: int, j: int| 0 <= i < j < rest.len() implies #[trigger] new[i]
        < #[trigger] new[j] by {
        let i0 = if i < p { i } else { i + 1 };
        let j0 = if j < p { j } else { j + 1 };
        assert(new[i] == places[i0] && new[j] == places[j0]);
    }
    assert(picked(rest, whole, new));
}

/// Giving requests up keeps the order of those that still wait, behind a front that
/// does not change.
proof fn lemma_close_in_order<S, C>(
    m: QueueModel<S, C>,
    ids: Seq<Seq<char>>,
    front: Seq<RequestView>,
    whole: Seq<RequestView>,
)
    requires
        in_order(front + m.requests, whole),
    ensures
        in_order(front + m.close_all(ids).requests, whole),
        m.withdrawals(ids).len() == 0 ==> m.close_all(ids).requests == m.requests,
    decreases ids.len(),
{
    if ids.len() > 0 {
        let before = m.close_all(ids.drop_last());
        lemma_close_in_order(m, ids.drop_last(), front, whole);
        model::request_ids(before.requests).index_of_first_ensures(ids.last());
        if let Some(p) = before.position(ids.last()) {
            lemma_in_order_remove(front + before.requests, whole, front.len() + p);
            assert((front + before.requests).remove(front.len() + p) =~= front
                + before.requests.remove(p));
        }
    }
}

/// Over any number of turns the requests that were handed out, followed by those
/// that still wait, are what waited and was taken in, in that order, with nothing
/// left out but what was given up while it waited.
pub proof fn law_order_over_turns<S, C>(m: QueueModel<S, C>, ts: Seq<TurnView<S, C>>)
    requires
        m.wf(),
        forall|i: int| 0 <= i < ts.len() ==> (#[trigger] ts[i]).events.len() == m.workers.len(),
    ensures
        ({
            let h = m.history(ts);
            let line = laws::handed_requests(h.handed) + m.turns(ts).requests;
            &&& m.turns(ts).wf()
            &&& m.turns(ts).workers.len() == m.workers.len()
            &&& in_order(line, m.requests + h.taken)
            &&& h.withdrawn.len() == 0 ==> line == m.requests + h.taken
        }),
    decreases ts.len(),
{
    let h = m.history(ts);
    let line = laws::handed_requests(h.handed) + m.turns(ts).requests;
    if ts.len() == 0 {
        assert(line =~= m.requests);
        assert(m.requests + h.taken =~= m.requests);
        lemma_in_order_same(m.requests);
    } else {
        let init = ts.drop_last();
        let t = ts.last();
        let before = m.turns(init);
        let h0 = m.history(init);
        let front0 = laws::handed_requests(h0.handed);
        let told = before.polled(t).0.tell_all();
        let new = t.incoming.take(before.admitted(t.incoming.len()) as int);
        assert forall|i: int| 0 <= i < init.len() implies (#[trigger] init[i]).events.len()
            == m.workers.len() by {
            assert(init[i] == ts[i]);
        }
        assert(ts[ts.len() - 1] == t);
        law_order_over_turns(m, init);
        before.lemma_turn(t);
        lemma_in_order_add(front0 + before.requests, m.requests + h0.taken, new);
        let front = laws::handed_requests(h.handed);
        assert(front =~= front0 + laws::handed_requests(before.polled(t).1));
        assert(front + told.requests =~= front0 + (before.requests + new)) by {
            assert(front + told.requests =~= front0 + (laws::handed_requests(before.polled(t).1)
                + told.requests));
        }
        assert(front0 + (before.requests + new) =~= front0 + before.requests + new);
        assert(m.requests + h0.taken + new =~= m.requests + h.taken);
        lemma_close_in_order(told, before.given_up(t), front, m.requests + h.taken);
    }
}

/// Over any number of turns no request is lost or repeated: what waited and was
/// taken in is what was handed out, what was given up while it waited, and what
/// still waits.
pub proof fn law_every_request_accounted_for<S, C>(m: QueueModel<S, C>, ts: Seq<TurnView<S, C>>)
    requires
        m.wf(),
        forall|i: int| 0 <= i < ts.len() ==> (#[trigger] ts[i]).events.len() == m.workers.len(),
    ensures
        (m.requests + m.history(ts).taken).to_multiset() == (laws::handed_requests(
            m.history(ts).handed,
        ) + m.turns(ts).requests + m.history(ts).withdrawn).to_multiset(),
    decreases ts.len(),
{
    broadcast use vstd::seq_lib::lemma_multiset_commutative;
    broadcast use vstd::multiset::group_multiset_axioms;

    let h = m.history(ts);
    if ts.len() == 0 {
        assert(m.requests + h.taken =~= m.requests);
        assert(laws::handed_requests(h.handed) + m.requests + h.withdrawn =~= m.requests);
    } else {
        let init = ts.drop_last();
        let t = ts.last();
        let before = m.turns(init);
        let h0 = m.history(init);
        let told = before.polled(t).0.tell_all();
        let ids = before.given_up(t);
        let new = t.incoming.take(before.admitted(t.incoming.len()) as int);
        let out = laws::handed_requests(before.polled(t).1);
        assert forall|i: int| 0 <= i < init.len() implies (#[trigger] init[i]).events.len()
            == m.workers.len() by {
            assert(init[i] == ts[i]);
        }
        assert(ts[ts.len() - 1] == t);
        law_every_request_accounted_for(m, init);
        law_order_over_turns(m, init);
        before.lemma_turn(t);
        told.lemma_withdrawals(ids);
        let front0 = laws::handed_requests(h0.handed);
        assert(laws::handed_requests(h.handed) =~= front0 + out);
        assert((out + told.requests).to_multiset() == (before.requests + new).to_multiset());
        assert((m.requests + h.taken).to_multiset() =~= (m.requests + h0.taken).to_multiset().add(
            new.to_multiset(),
        )) by {
            assert(m.requests + h.taken =~= m.requests + h0.taken + new);
        }
        let gone = told.withdrawals(ids);
        let left = m.turns(ts).requests;
        let now = laws::handed_requests(h.handed) + left + h.withdrawn;
        assert(now.to_multiset() =~= front0.to_multiset().add(out.to_multiset()).add(
            left.to_multiset(),
        ).add(h0.withdrawn.to_multiset().add(gone.to_multiset())));
        assert(out.to_multiset().add(told.requests.to_multiset())
            == before.requests.to_multiset().add(new.to_multiset()));
        assert forall|r: RequestView| #[trigger] now.to_multiset().count(r) == (m.requests
            + h.taken).to_multiset().count(r) by {
            assert(out.to_multiset().add(told.requests.to_multiset()).count(r)
                == before.requests.to_multiset().add(new.to_multiset()).count(r));
            assert(told.requests.to_multiset().count(r) == left.to_multiset().count(r)
                + gone.to_multiset().count(r));
            assert((m.requests + h0.taken).to_multiset().count(r) == (front0 + before.requests
                + h0.withdrawn).to_multiset().count(r));
        }
        assert(now.to_multiset() =~= (m.requests + h.taken).to_multiset());
    }
}

/// How many requests were handed to a worker.
pub open spec fn handed_to(handed: Seq<(int, RequestView)>, worker: int) -> nat
    decreases handed.len(),
{
    if handed.len() == 0 {
        0
    } else {
        handed_to(handed.drop_last(), worker) + if handed.last().0 == worker {
            1nat
        } else {
            0
        }
    }
}

/// How often a worker said that it is ready.
pub open spec fn ready_signals<S, C>(ts: Seq<TurnView<S, C>>, worker: int) -> nat
    decreases ts.len(),
{
    if ts.len() == 0 {
        0
    } else {
        ready_signals(ts.drop_last(), worker) + if ts.last().events[worker].ready {
            1nat
        } else {
            0
        }
    }
}

/// One if a worker is idle, none if it is busy.
pub open spec fn idle<S, C>(m: QueueModel<S, C>, worker: int) -> nat {
    if m.workers[worker] == WorkerStatus::Idle {
        1
    } else {
        0
    }
}

proof fn lemma_handed_to_add(a: Seq<(int, RequestView)>, b: Seq<(int, RequestView)>, worker: int)
    ensures
        handed_to(a + b, worker) == handed_to(a, worker) + handed_to(b, worker),
    decreases b.len(),
{
    if b.len() == 0 {
        assert(a + b =~= a);
    } else {
        lemma_handed_to_add(a, b.drop_last(), worker);
        assert((a + b).drop_last() =~= a + b.drop_last());
    }
}

/// What one turn hands to a worker is covered by its being idle or ready.
proof fn lemma_serve_worker<S, C>(
    m: QueueModel<S, C>,
    events: Seq<EventsView>,
    cancels: Seq<C>,
    worker: int,
)
    requires
        m.wf(),
        events.len() <= m.workers.len(),
        0 <= worker < m.workers.len(),
    ensures
        ({
            let (after, handed) = m.serve(events, cancels);
            handed_to(handed, worker) + idle(after, worker) <= idle(m, worker) + if worker
                < events.len() && events[worker].ready {
                1nat
            } else {
                0
            }
        }),
    decreases events.len(),
{
    if events.len() > 0 {
        let init = events.drop_last();
        let (before, first) = m.serve(init, cancels);
        let w = events.len() - 1;
        let heard = before.hear(w, events.last());
        lemma_serve_worker(m, init, cancels, worker);
        m.lemma_serve(init, cancels);
        before.lemma_hear(w, events.last());
        if worker < w {
            assert(init[worker] == events[worker]);
        }
        if heard.hands_out(w) {
            let handed = first.push((w, heard.requests[0]));
            assert(handed.drop_last() =~= first);
        }
    }
}

/// No worker gets more requests than it said that it is ready, counting that it was
/// idle at the start.
pub proof fn law_no_more_requests_than_signals<S, C>(
    m: QueueModel<S, C>,
    ts: Seq<TurnView<S, C>>,
    worker: int,
)
    requires
        m.wf(),
        forall|i: int| 0 <= i < ts.len() ==> (#[trigger] ts[i]).events.len() == m.workers.len(),
        0 <= worker < m.workers.len(),
    ensures
        handed_to(m.history(ts).handed, worker) + idle(m.turns(ts), worker) <= ready_signals(
            ts,
            worker,
        ) + idle(m, worker),
    decreases ts.len(),
{
    if ts.len() > 0 {
        let init = ts.drop_last();
        let t = ts.last();
        let before = m.turns(init);
        assert forall|i: int| 0 <= i < init.len() implies (#[trigger] init[i]).events.len()
            == m.workers.len() by {
            assert(init[i] == ts[i]);
        }
        assert(ts[ts.len() - 1] == t);
        law_no_more_requests_than_signals(m, init, worker);
        law_order_over_turns(m, init);
        before.lemma_turn(t);
        lemma_serve_worker(before.enqueue(t.incoming), t.events, t.cancels, worker);
        lemma_handed_to_add(m.history(init).handed, before.polled(t).1, worker);
    }
}

/// Whether there is no news of a request, and telling them changes nothing.
pub open spec fn quiet<S, C>(m: QueueModel<S, C>, id: Seq<char>) -> bool {
    &&& m.news(id) == Seq::<ResponseView>::empty()
    &&& m.tell(id) == m
    &&& !m.over(id)
}

/// Whether all that is known of a request was told: its reports were taken, or its
/// rank is what was last told.
spec fn up_to_date<S, C>(m: QueueModel<S, C>, id: Seq<char>) -> bool {
    match table::lookup(m.results, id) {
        Some(kept) => kept.len() == 0,
        None => m.position(id) is Some ==> m.rank_known(id),
    }
}

proof fn lemma_up_to_date_is_quiet<S, C>(m: QueueModel<S, C>, id: Seq<char>)
    requires
        m.wf(),
        up_to_date(m, id),
        table::lookup(m.results, id) is Some || m.position(id) is Some,
    ensures
        quiet(m, id),
{
    table::lemma_find(m.results, id);
    if let Some(kept) = table::lookup(m.results, id) {
        assert(kept =~= Seq::<TestResultView>::empty());
        assert(table::put(m.results, id, Seq::<TestResultView>::empty()) =~= m.results);
    }
    assert(m.news(id) =~= Seq::<ResponseView>::empty());
}

/// Each of the first monitors that were told is up to date.
proof fn lemma_told<S, C>(m: QueueModel<S, C>, n: nat, j: int)
    requires
        m.wf(),
        0 <= j < n <= m.monitors.len(),
    ensures
        ({
            let id = m.monitors[j].0;
            &&& up_to_date(m.tell_first(n), id)
            &&& table::lookup(m.tell_first(n).results, id) is Some <==> table::lookup(
                m.results,
                id,
            ) is Some
        }),
    decreases n,
{
    let id = m.monitors[j].0;
    let before = m.tell_first((n - 1) as nat);
    let last = m.monitors[n - 1].0;
    m.lemma_tell_first((n - 1) as nat);
    table::lemma_put(before.results, last, Seq::<TestResultView>::empty());
    if j < n - 1 {
        lemma_told(m, (n - 1) as nat, j);
        assert(table::keys(m.monitors)[j] != table::keys(m.monitors)[n - 1]);
    } else {
        lemma_untold(m, (n - 1) as nat, j);
    }
}

/// Telling the first monitors takes no entry away from a later one.
proof fn lemma_untold<S, C>(m: QueueModel<S, C>, n: nat, j: int)
    requires
        m.wf(),
        0 <= n <= j < m.monitors.len(),
    ensures
        table::lookup(m.tell_first(n).results, m.monitors[j].0) == table::lookup(
            m.results,
            m.monitors[j].0,
        ),
    decreases n,
{
    if n > 0 {
        let before = m.tell_first((n - 1) as nat);
        lemma_untold(m, (n - 1) as nat, j);
        table::lemma_put(before.results, m.monitors[n - 1].0, Seq::<TestResultView>::empty());
        assert(table::keys(m.monitors)[n - 1] != table::keys(m.monitors)[j]);
    }
}

proof fn lemma_quiet_round<S, C>(m: QueueModel<S, C>, n: nat)
    requires
        n <= m.monitors.len(),
        forall|j: int| 0 <= j < m.monitors.len() ==> quiet(m, (#[trigger] m.monitors[j]).0),
    ensures
        m.tell_first(n) == m,
        m.news_first(n) == Seq::<ResponseView>::empty(),
        m.over_first(n) == Seq::<Seq<char>>::empty(),
    decreases n,
{
    if n > 0 {
        lemma_quiet_round(m, (n - 1) as nat);
        assert(quiet(m, m.monitors[n - 1].0));
        assert(m.news_first(n) =~= Seq::<ResponseView>::empty());
    }
}

/// Giving up requests that do not wait leaves those that wait as they are.
proof fn lemma_none_waits<S, C>(m: QueueModel<S, C>, ids: Seq<Seq<char>>)
    requires
        forall|i: int| 0 <= i < ids.len() ==> m.position(#[trigger] ids[i]) is None,
    ensures
        m.close_all(ids).requests == m.requests,
    decreases ids.len(),
{
    if ids.len() > 0 {
        let init = ids.drop_last();
        assert forall|i: int| 0 <= i < init.len() implies m.position(
            #[trigger] init[i],
        ) is None by {
            assert(init[i] == ids[i]);
        }
        lemma_none_waits(m, init);
        assert(m.position(ids[ids.len() - 1]) is None);
    }
}

/// A monitor round right after a settled one, before anything else comes, sends
/// nothing, ends nothing and changes nothing, unless a request that still waited
/// was given up: then others have moved up.
pub proof fn law_settled_round_is_quiet<S, C>(m: QueueModel<S, C>, failed: Seq<Seq<char>>)
    requires
        m.wf(),
        forall|i: int|
            0 <= i < (m.over_all() + failed).len() ==> m.position(
                #[trigger] (m.over_all() + failed)[i],
            ) is None,
    ensures
        ({
            let settled = m.tell_all().close_all(m.over_all() + failed);
            let again = settled.watch(Seq::empty());
            &&& again == settled
            &&& again.news_all() == Seq::<ResponseView>::empty()
            &&& again.over_all() == Seq::<Seq<char>>::empty()
            &&& again.tell_all() == settled
        }),
{
    let ids = m.over_all() + failed;
    let told = m.tell_all();
    let settled = told.close_all(ids);
    let n = m.monitors.len();
    m.lemma_tell_first(n);
    laws::law_given_up(told, ids);
    lemma_none_waits(told, ids);
    assert forall|j: int| 0 <= j < settled.monitors.len() implies quiet(
        settled,
        (#[trigger] settled.monitors[j]).0,
    ) by {
        let id = settled.monitors[j].0;
        table::lemma_found_at(settled.monitors, j);
        assert(table::lookup(settled.monitors, id) is Some);
        if ids.contains(id) {
            assert(table::lookup(settled.monitors, id) is None);
        }
        assert(table::lookup(told.monitors, id) is Some);
        table::lemma_find(m.monitors, id);
        let k = table::keys(m.monitors).index_of_first(id)->0;
        lemma_told(m, n, k);
        laws::law_finished(m, id);
        if m.over_all().contains(id) {
            let i = m.over_all().index_of(id);
            assert(ids[i] == id);
        }
        assert(!m.over(id));
        lemma_up_to_date_is_quiet(settled, id);
    }
    lemma_quiet_round(settled, settled.monitors.len());
}

/// Whether in a turn a request goes on that was handed out earlier: it is not handed
/// out again, its reports are kept, and it is monitored.
pub open spec fn goes_on<S, C>(m: QueueModel<S, C>, t: TurnView<S, C>, id: Seq<char>) -> bool {
    &&& t.events.len() == m.workers.len()
    &&& !model::request_ids(laws::handed_requests(m.polled(t).1)).contains(id)
    &&& table::lookup(m.polled(t).0.results, id) is Some
    &&& table::lookup(m.polled(t).0.monitors, id) is Some
}

/// Whether in one of several turns a request goes on.
pub open spec fn goes_on_at<S, C>(
    m: QueueModel<S, C>,
    ts: Seq<TurnView<S, C>>,
    i: int,
    id: Seq<char>,
) -> bool {
    goes_on(m.turns(ts.take(i)), ts[i], id)
}

/// Whether at the end of one of several turns a request is given up.
pub open spec fn given_up_at<S, C>(
    m: QueueModel<S, C>,
    ts: Seq<TurnView<S, C>>,
    i: int,
    id: Seq<char>,
) -> bool {
    m.turns(ts.take(i)).given_up(ts[i]).contains(id)
}

/// What holds of a turn holds of it among the turns without the last one.
proof fn lemma_earlier_turn<S, C>(
    m: QueueModel<S, C>,
    ts: Seq<TurnView<S, C>>,
    i: int,
    id: Seq<char>,
)
    requires
        0 <= i < ts.len() - 1,
    ensures
        goes_on_at(m, ts.drop_last(), i, id) == goes_on_at(m, ts, i, id),
        given_up_at(m, ts.drop_last(), i, id) == given_up_at(m, ts, i, id),
{
    assert(ts.drop_last().take(i) =~= ts.take(i));
}

/// The reports of a request that come in a turn.
pub open spec fn reports_in<S, C>(t: TurnView<S, C>, id: Seq<char>) -> Seq<TestResultView> {
    laws::all_reports(t.events).filter(|r: TestResultView| r.id == id)
}

/// The reports of a request that come in several turns.
pub open spec fn reports_over<S, C>(ts: Seq<TurnView<S, C>>, id: Seq<char>) -> Seq<TestResultView>
    decreases ts.len(),
{
    if ts.len() == 0 {
        Seq::empty()
    } else {
        reports_over(ts.drop_last(), id) + reports_in(ts.last(), id)
    }
}

/// The responses of a turn that go to a request.
pub open spec fn told_in<S, C>(m: QueueModel<S, C>, t: TurnView<S, C>, id: Seq<char>) -> Seq<
    ResponseView,
> {
    m.polled(t).0.news_all().filter(|r: ResponseView| r.id == id)
}

/// The responses of several turns that go to a request.
pub open spec fn told_over<S, C>(
    m: QueueModel<S, C>,
    ts: Seq<TurnView<S, C>>,
    id: Seq<char>,
) -> Seq<ResponseView>
    decreases ts.len(),
{
    if ts.len() == 0 {
        Seq::empty()
    } else {
        told_over(m, ts.drop_last(), id) + told_in(m.turns(ts.drop_last()), ts.last(), id)
    }
}

/// The responses that pass reports on.
pub open spec fn passed_on(id: Seq<char>, rs: Seq<TestResultView>) -> Seq<ResponseView> {
    rs.map_values(|r: TestResultView| model::response_of(id, r))
}

/// What one turn tells of a request that goes on.
proof fn lemma_followed_turn<S, C>(m: QueueModel<S, C>, t: TurnView<S, C>, id: Seq<char>)
    requires
        m.wf(),
        table::lookup(m.results, id) == Some(Seq::<TestResultView>::empty()),
        goes_on(m, t, id),
    ensures
        table::lookup(m.polled(t).0.results, id) == Some(reports_in(t, id)),
        told_in(m, t, id) == passed_on(id, reports_in(t, id)),
        !m.given_up(t).contains(id) ==> table::lookup(m.turn(t).results, id) == Some(
            Seq::<TestResultView>::empty(),
        ),
{
    let enqueued = m.enqueue(t.incoming);
    let after = enqueued.serve(t.events, t.cancels).0;
    let watched = m.polled(t).0;
    let told = watched.tell_all();
    let n = watched.monitors.len();
    m.lemma_turn(t);
    enqueued.lemma_serve(t.events, t.cancels);
    after.lemma_watch(t.monitors);
    laws::law_turn_keeps_reports(enqueued, t.events, t.cancels, id);
    assert(Seq::<TestResultView>::empty() + reports_in(t, id) =~= reports_in(t, id));
    laws::law_each_monitor_gets_its_news(watched, id);
    table::lemma_find(watched.monitors, id);
    let k = table::keys(watched.monitors).index_of_first(id)->0;
    lemma_told(watched, n, k);
    let left = table::lookup(told.results, id)->0;
    assert(left =~= Seq::<TestResultView>::empty());
    laws::law_given_up(told, m.given_up(t));
}

/// Over any number of whole turns the monitor of a request that goes on is told all
/// of its reports, each once and in the order in which they came, and none is left
/// behind.
pub proof fn law_followed_over_turns<S, C>(
    m: QueueModel<S, C>,
    ts: Seq<TurnView<S, C>>,
    id: Seq<char>,
)
    requires
        m.wf(),
        table::lookup(m.results, id) == Some(Seq::<TestResultView>::empty()),
        forall|i: int| 0 <= i < ts.len() ==> #[trigger] goes_on_at(m, ts, i, id),
        forall|i: int| 0 <= i < ts.len() ==> !#[trigger] given_up_at(m, ts, i, id),
    ensures
        m.turns(ts).wf(),
        table::lookup(m.turns(ts).results, id) == Some(Seq::<TestResultView>::empty()),
        told_over(m, ts, id) == passed_on(id, reports_over(ts, id)),
    decreases ts.len(),
{
    if ts.len() == 0 {
        assert(told_over(m, ts, id) =~= passed_on(id, reports_over(ts, id)));
    } else {
        let init = ts.drop_last();
        let t = ts.last();
        assert forall|i: int| 0 <= i < init.len() implies #[trigger] goes_on_at(m, init, i, id) by {
            lemma_earlier_turn(m, ts, i, id);
            assert(goes_on_at(m, ts, i, id));
        }
        assert forall|i: int| 0 <= i < init.len() implies !#[trigger] given_up_at(
            m,
            init,
            i,
            id,
        ) by {
            lemma_earlier_turn(m, ts, i, id);
            assert(!given_up_at(m, ts, i, id));
        }
        law_followed_over_turns(m, init, id);
        assert(ts.take(ts.len() - 1) =~= init);
        assert(goes_on_at(m, ts, ts.len() - 1, id));
        assert(!given_up_at(m, ts, ts.len() - 1, id));
        let before = m.turns(init);
        before.lemma_turn(t);
        lemma_followed_turn(before, t, id);
        assert(told_over(m, ts, id) =~= passed_on(id, reports_over(ts, id)));
    }
}

/// A test reaches its monitor as a whole, over any number of whole turns: if its
/// reports come one by one, the last of them in the last turn, its monitor is told
/// every line in order, then how the test ended; then the request is given up and
/// nothing of it is kept.
pub proof fn law_whole_test_reaches_monitor<S, C>(
    m: QueueModel<S, C>,
    ts: Seq<TurnView<S, C>>,
    id: Seq<char>,
    lines: Seq<Seq<char>>,
    outcome: RunOutcomeView,
    duration: u64,
)
    requires
        m.wf(),
        table::lookup(m.results, id) == Some(Seq::<TestResultView>::empty()),
        ts.len() > 0,
        forall|i: int| 0 <= i < ts.len() ==> #[trigger] goes_on_at(m, ts, i, id),
        forall|i: int| 0 <= i < ts.len() - 1 ==> !#[trigger] given_up_at(m, ts, i, id),
        reports_over(ts, id) == laws::run_reports(id, lines, outcome, duration),
        reports_in(ts.last(), id).len() > 0,
    ensures
        told_over(m, ts, id) == lines.map_values(
            |line: Seq<char>| laws::line_response(id, line),
        ).push(laws::end_response(id, outcome, duration)),
        m.turns(ts.drop_last()).given_up(ts.last()).contains(id),
        table::lookup(m.turns(ts).results, id) is None,
        table::lookup(m.turns(ts).monitors, id) is None,
{
    let init = ts.drop_last();
    let t = ts.last();
    assert forall|i: int| 0 <= i < init.len() implies #[trigger] goes_on_at(m, init, i, id) by {
        lemma_earlier_turn(m, ts, i, id);
        assert(goes_on_at(m, ts, i, id));
    }
    assert forall|i: int| 0 <= i < init.len() implies !#[trigger] given_up_at(m, init, i, id) by {
        lemma_earlier_turn(m, ts, i, id);
        assert(!given_up_at(m, ts, i, id));
    }
    law_followed_over_turns(m, init, id);
    assert(ts.take(ts.len() - 1) =~= init);
    assert(goes_on_at(m, ts, ts.len() - 1, id));
    let before = m.turns(init);
    let watched = before.polled(t).0;
    before.lemma_turn(t);
    lemma_followed_turn(before, t, id);
    let reports = reports_over(ts, id);
    let told = lines.map_values(|line: Seq<char>| laws::line_response(id, line)).push(
        laws::end_response(id, outcome, duration),
    );
    assert(told_over(m, ts, id) =~= passed_on(id, reports));
    assert forall|i: int| 0 <= i < reports.len() implies model::response_of(
        id,
        #[trigger] reports[i],
    ) == told[i] by {}
    assert(passed_on(id, reports) =~= told);
    assert(reports_in(t, id).last() == reports.last());
    assert(watched.over(id));
    laws::law_finished(watched, id);
    let i = watched.over_all().index_of(id);
    assert(before.given_up(t)[i] == id);
    laws::law_given_up(watched.tell_all(), before.given_up(t));
}

/// Whether no two of these requests share an identifier, and none has the identifier
/// of a request of which the queue keeps reports. An empty queue keeps none.
pub open spec fn all_new<S, C>(m: QueueModel<S, C>, requests: Seq<RequestView>) -> bool {
    &&& model::request_ids(requests).no_duplicates()
    &&& forall|id: Seq<char>|
        #![trigger table::lookup(m.results, id)]
        table::lookup(m.results, id) is Some ==> !model::request_ids(requests).contains(id)
}

/// Telling the monitors their news adds and takes no entry.
pub proof fn lemma_tell_entries<S, C>(m: QueueModel<S, C>, n: nat, id: Seq<char>)
    requires
        m.wf(),
        n <= m.monitors.len(),
    ensures
        table::lookup(m.tell_first(n).results, id) is Some <==> table::lookup(
            m.results,
            id,
        ) is Some,
    decreases n,
{
    if n > 0 {
        let before = m.tell_first((n - 1) as nat);
        lemma_tell_entries(m, (n - 1) as nat, id);
        table::lemma_put(before.results, m.monitors[n - 1].0, Seq::<TestResultView>::empty());
    }
}

/// Reports are kept of no request but those of which some were kept before and
/// those that were handed out.
proof fn lemma_entries_of_turn<S, C>(m: QueueModel<S, C>, t: TurnView<S, C>, id: Seq<char>)
    requires
        m.wf(),
        t.events.len() == m.workers.len(),
    ensures
        table::lookup(m.polled(t).0.results, id) is Some ==> table::lookup(m.results, id) is Some
            || model::request_ids(laws::handed_requests(m.polled(t).1)).contains(id),
        table::lookup(m.turn(t).results, id) is Some ==> table::lookup(
            m.polled(t).0.results,
            id,
        ) is Some,
{
    let enqueued = m.enqueue(t.incoming);
    let after = enqueued.serve(t.events, t.cancels).0;
    let watched = m.polled(t).0;
    m.lemma_turn(t);
    enqueued.lemma_serve(t.events, t.cancels);
    after.lemma_watch(t.monitors);
    if !model::request_ids(laws::handed_requests(m.polled(t).1)).contains(id) {
        laws::law_turn_keeps_reports(enqueued, t.events, t.cancels, id);
    }
    lemma_tell_entries(watched, watched.monitors.len(), id);
    laws::law_given_up(watched.tell_all(), m.given_up(t));
    if m.given_up(t).contains(id) {
        assert(table::lookup(m.turn(t).results, id) is None);
    }
}

/// Reports are kept of no request but those of which some were kept at the start and
/// those that were handed out.
proof fn lemma_entries_over_turns<S, C>(
    m: QueueModel<S, C>,
    ts: Seq<TurnView<S, C>>,
    id: Seq<char>,
)
    requires
        m.wf(),
        forall|i: int| 0 <= i < ts.len() ==> (#[trigger] ts[i]).events.len() == m.workers.len(),
    ensures
        table::lookup(m.turns(ts).results, id) is Some ==> table::lookup(m.results, id) is Some
            || model::request_ids(laws::handed_requests(m.history(ts).handed)).contains(id),
    decreases ts.len(),
{
    if ts.len() > 0 {
        let init = ts.drop_last();
        let t = ts.last();
        let before = m.turns(init);
        assert forall|i: int| 0 <= i < init.len() implies (#[trigger] init[i]).events.len()
            == m.workers.len() by {
            assert(init[i] == ts[i]);
        }
        assert(ts[ts.len() - 1] == t);
        lemma_entries_over_turns(m, init, id);
        law_order_over_turns(m, init);
        lemma_entries_of_turn(before, t, id);
        lemma_handed_ids(m.history(init).handed, before.polled(t).1, id);
    }
}

/// The identifiers of two sequences of requests that were handed out.
proof fn lemma_handed_ids(a: Seq<(int, RequestView)>, b: Seq<(int, RequestView)>, id: Seq<char>)
    ensures
        model::request_ids(laws::handed_requests(a + b)).contains(id) <==> model::request_ids(
            laws::handed_requests(a),
        ).contains(id) || model::request_ids(laws::handed_requests(b)).contains(id),
{
    let ids = model::request_ids(laws::handed_requests(a + b));
    let first = model::request_ids(laws::handed_requests(a));
    let second = model::request_ids(laws::handed_requests(b));
    assert(ids =~= first + second);
    if first.contains(id) {
        assert(ids[first.index_of(id)] == id);
    }
    if second.contains(id) {
        assert(ids[first.len() + second.index_of(id)] == id);
    }
    if ids.contains(id) {
        let i = ids.index_of(id);
        if i < first.len() {
            assert(first[i] == id);
        } else {
            assert(second[i - first.len()] == id);
        }
    }
}

/// What was handed out up to the middle of the last turn, followed by what waits
/// then, is in the order in which it waited and was taken in.
proof fn lemma_polled_in_order<S, C>(m: QueueModel<S, C>, ts: Seq<TurnView<S, C>>)
    requires
        m.wf(),
        forall|i: int| 0 <= i < ts.len() ==> (#[trigger] ts[i]).events.len() == m.workers.len(),
        ts.len() > 0,
    ensures
        in_order(
            laws::handed_requests(m.history(ts).handed) + m.turns(ts.drop_last()).polled(
                ts.last(),
            ).0.requests,
            m.requests + m.history(ts).taken,
        ),
{
    let init = ts.drop_last();
    let t = ts.last();
    let before = m.turns(init);
    let h0 = m.history(init);
    let front0 = laws::handed_requests(h0.handed);
    let out = laws::handed_requests(before.polled(t).1);
    let waiting = before.polled(t).0.requests;
    let new = t.incoming.take(before.admitted(t.incoming.len()) as int);
    assert forall|i: int| 0 <= i < init.len() implies (#[trigger] init[i]).events.len()
        == m.workers.len() by {
        assert(init[i] == ts[i]);
    }
    assert(ts[ts.len() - 1] == t);
    law_order_over_turns(m, init);
    before.lemma_turn(t);
    lemma_in_order_add(front0 + before.requests, m.requests + h0.taken, new);
    assert(laws::handed_requests(m.history(ts).handed) =~= front0 + out);
    assert(front0 + out + waiting =~= front0 + (out + waiting));
    assert(front0 + (before.requests + new) =~= front0 + before.requests + new);
    assert(m.requests + h0.taken + new =~= m.requests + m.history(ts).taken);
}

/// Of requests with different identifiers, those that were handed out do not wait.
proof fn lemma_apart<S, C>(
    m: QueueModel<S, C>,
    handed: Seq<RequestView>,
    waiting: Seq<RequestView>,
    whole: Seq<RequestView>,
    id: Seq<char>,
)
    requires
        in_order(handed + waiting, whole),
        all_new(m, whole),
    ensures
        model::request_ids(waiting).no_duplicates(),
        table::lookup(m.results, id) is Some || model::request_ids(handed).contains(id)
            ==> !model::request_ids(waiting).contains(id),
{
    let line = handed + waiting;
    let ids = model::request_ids(whole);
    let waiting_ids = model::request_ids(waiting);
    let places = choose|places: Seq<int>| picked(line, whole, places);
    assert forall|i: int| 0 <= i < line.len() implies 0 <= #[trigger] places[i] < ids.len()
        && ids[places[i]] == line[i].id by {}
    assert forall|i: int, j: int|
        0 <= i < waiting.len() && 0 <= j < waiting.len() && i != j implies waiting_ids[i]
        != waiting_ids[j] by {
        let i0 = handed.len() + i;
        let j0 = handed.len() + j;
        assert(line[i0] == waiting[i] && line[j0] == waiting[j]);
        assert(places[i0] != places[j0]);
        assert(ids[places[i0]] != ids[places[j0]]);
    }
    if waiting_ids.contains(id) {
        let q = handed.len() + waiting_ids.index_of(id);
        assert(line[q].id == id);
        assert(ids[places[q]] == id);
        if model::request_ids(handed).contains(id) {
            let k = model::request_ids(handed).index_of(id);
            assert(line[k] == handed[k]);
            assert(places[k] < places[q]);
            assert(ids[places[k]] != ids[places[q]]);
        }
    }
}

/// As long as no two requests share an identifier, no request both waits and has
/// reports kept, and no request waits twice, neither between turns nor when the
/// monitors are told.
pub proof fn law_kept_requests_do_not_wait<S, C>(
    m: QueueModel<S, C>,
    ts: Seq<TurnView<S, C>>,
    id: Seq<char>,
)
    requires
        m.wf(),
        forall|i: int| 0 <= i < ts.len() ==> (#[trigger] ts[i]).events.len() == m.workers.len(),
        all_new(m, m.requests + m.history(ts).taken),
    ensures
        model::request_ids(m.turns(ts).requests).no_duplicates(),
        table::lookup(m.turns(ts).results, id) is Some ==> m.turns(ts).position(id) is None,
        ts.len() > 0 ==> {
            let watched = m.turns(ts.drop_last()).polled(ts.last()).0;
            &&& model::request_ids(watched.requests).no_duplicates()
            &&& table::lookup(watched.results, id) is Some ==> watched.position(id) is None
        },
{
    let h = m.history(ts);
    let handed = laws::handed_requests(h.handed);
    let whole = m.requests + h.taken;
    let after = m.turns(ts);
    law_order_over_turns(m, ts);
    lemma_entries_over_turns(m, ts, id);
    lemma_apart(m, handed, after.requests, whole, id);
    model::request_ids(after.requests).index_of_first_ensures(id);
    if ts.len() > 0 {
        let init = ts.drop_last();
        let t = ts.last();
        let before = m.turns(init);
        let watched = before.polled(t).0;
        assert forall|i: int| 0 <= i < init.len() implies (#[trigger] init[i]).events.len()
            == m.workers.len() by {
            assert(init[i] == ts[i]);
        }
        assert(ts[ts.len() - 1] == t);
        law_order_over_turns(m, init);
        lemma_entries_over_turns(m, init, id);
        lemma_entries_of_turn(before, t, id);
        lemma_handed_ids(m.history(init).handed, before.polled(t).1, id);
        lemma_polled_in_order(m, ts);
        lemma_apart(m, handed, watched.requests, whole, id);
        model::request_ids(watched.requests).index_of_first_ensures(id);
    }
}

/// As long as no two requests share an identifier, a monitor round right after a
/// turn sends nothing, ends nothing and changes nothing, unless a monitor of a
/// waiting request could not be told in that turn.
pub proof fn law_quiet_after_turn<S, C>(m: QueueModel<S, C>, ts: Seq<TurnView<S, C>>)
    requires
        m.wf(),
        forall|i: int| 0 <= i < ts.len() ==> (#[trigger] ts[i]).events.len() == m.workers.len(),
        all_new(m, m.requests + m.history(ts).taken),
        ts.len() > 0,
        forall|i: int|
            0 <= i < ts.last().failed.len() ==> m.turns(ts.drop_last()).polled(
                ts.last(),
            ).0.position(#[trigger] ts.last().failed[i]) is None,
    ensures
        ({
            let again = m.turns(ts).watch(Seq::empty());
            &&& again == m.turns(ts)
            &&& again.news_all() == Seq::<ResponseView>::empty()
            &&& again.over_all() == Seq::<Seq<char>>::empty()
            &&& again.tell_all() == m.turns(ts)
        }),
{
    let init = ts.drop_last();
    let t = ts.last();
    let before = m.turns(init);
    let watched = before.polled(t).0;
    let ids = watched.over_all() + t.failed;
    assert forall|i: int| 0 <= i < init.len() implies (#[trigger] init[i]).events.len()
        == m.workers.len() by {
        assert(init[i] == ts[i]);
    }
    assert(ts[ts.len() - 1] == t);
    law_order_over_turns(m, init);
    before.lemma_turn(t);
    assert forall|i: int| 0 <= i < ids.len() implies watched.position(
        #[trigger] ids[i],
    ) is None by {
        let id = ids[i];
        if i < watched.over_all().len() {
            assert(watched.over_all()[i] == id);
            laws::law_finished(watched, id);
            law_kept_requests_do_not_wait(m, ts, id);
        } else {
            assert(t.failed[i - watched.over_all().len()] == id);
        }
    }
    law_settled_round_is_quiet(watched, t.failed);
}

} // verus!
