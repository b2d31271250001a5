use tacos_test_server::server::queue::{
    Dispatch, PollRound, Queue, RequestItem, RequestStatus, RequestType, WorkerEvents,
};
use tacos_test_server::server::worker::{
    canceled_result, completed_result, processing_result, runtime_error_result,
    server_error_result, tle_result, ResultCode, TestResult,
};

fn request(id: &str) -> RequestItem {
    RequestItem {
        id: id.to_string(),
        req_type: RequestType::Lab1,
        body: format!("/tmp/{}.tar.gz", id).into_bytes(),
    }
}

fn requests(ids: &[&str]) -> Vec<RequestItem> {
    ids.iter().map(|id| request(id)).collect()
}

fn quiet(n: usize) -> Vec<WorkerEvents> {
    (0..n)
        .map(|_| WorkerEvents {
            results: vec![],
            ready: false,
        })
        .collect()
}

fn ready(flags: &[bool]) -> Vec<WorkerEvents> {
    flags
        .iter()
        .map(|r| WorkerEvents {
            results: vec![],
            ready: *r,
        })
        .collect()
}

fn heard(results: Vec<TestResult>) -> Vec<WorkerEvents> {
    vec![WorkerEvents {
        results,
        ready: false,
    }]
}

fn line(id: &str, text: &str) -> TestResult {
    processing_result(id.to_string(), text.to_string())
}

fn monitor(id: &str, sender: u32) -> Vec<(String, u32)> {
    vec![(id.to_string(), sender)]
}

fn strings(ids: &[&str]) -> Vec<String> {
    ids.iter().map(|id| id.to_string()).collect()
}

fn channel() -> (u32, u32) {
    (7, 70)
}

/// A queue whose only worker runs `id`.
fn running(id: &str) -> Queue<u32, u32> {
    let mut queue: Queue<u32, u32> = Queue::new(10, 10, 1);
    queue.poll_request_channel(requests(&[id]));
    let sent = queue.poll_worker_channel(ready(&[true]), &channel);
    assert_eq!(sent.len(), 1);
    queue
}

#[test]
fn requests_beyond_capacity_are_refused() {
    let mut queue: Queue<u32, u32> = Queue::new(2, 10, 1);
    let replies = queue.poll_request_channel(requests(&["a", "b", "c"]));
    assert_eq!(
        replies,
        vec![Ok("a".to_string()), Ok("b".to_string()), Err(())]
    );
    let replies = queue.poll_request_channel(requests(&["d"]));
    assert_eq!(replies, vec![Err(())]);
}

#[test]
fn queue_without_capacity_refuses_everything() {
    let mut queue: Queue<u32, u32> = Queue::new(0, 10, 1);
    assert_eq!(queue.poll_request_channel(requests(&["a"])), vec![Err(())]);
    assert_eq!(queue.poll_request_channel(vec![]), vec![]);
}

#[test]
fn workers_start_busy_and_get_work_when_ready() {
    let mut queue: Queue<u32, u32> = Queue::new(10, 10, 2);
    queue.poll_request_channel(requests(&["a", "b", "c"]));
    assert!(queue.poll_worker_channel(quiet(2), &channel).is_empty());
    let sent: Vec<Dispatch<u32>> = queue.poll_worker_channel(ready(&[false, true]), &channel);
    assert_eq!(sent.len(), 1);
    assert_eq!(sent[0].worker, 1);
    assert_eq!(sent[0].request.id, "a");
    assert_eq!(sent[0].request.body, b"/tmp/a.tar.gz".to_vec());
    assert_eq!(sent[0].cancel_receiver, 70);
    // the worker is busy now
    assert!(queue.poll_worker_channel(quiet(2), &channel).is_empty());
}

#[test]
fn requests_leave_in_order_of_arrival() {
    let mut queue: Queue<u32, u32> = Queue::new(10, 10, 3);
    queue.poll_request_channel(requests(&["a", "b"]));
    queue.poll_request_channel(requests(&["c", "d"]));
    let sent = queue.poll_worker_channel(ready(&[true, true, true]), &channel);
    let order: Vec<(usize, String)> = sent.into_iter().map(|d| (d.worker, d.request.id)).collect();
    assert_eq!(
        order,
        vec![
            (0, "a".to_string()),
            (1, "b".to_string()),
            (2, "c".to_string())
        ]
    );
    let sent = queue.poll_worker_channel(ready(&[false, false, true]), &channel);
    assert_eq!(sent[0].request.id, "d");
}

#[test]
fn ready_worker_is_remembered_until_a_request_comes() {
    let mut queue: Queue<u32, u32> = Queue::new(10, 10, 1);
    assert!(queue.poll_worker_channel(ready(&[true]), &channel).is_empty());
    queue.poll_request_channel(requests(&["a"]));
    let sent = queue.poll_worker_channel(quiet(1), &channel);
    assert_eq!(sent[0].request.id, "a");
}

#[test]
fn one_request_per_worker_and_turn() {
    let mut queue: Queue<u32, u32> = Queue::new(10, 10, 1);
    queue.poll_request_channel(requests(&["a", "b"]));
    assert_eq!(
        queue.poll_worker_channel(ready(&[true]), &channel).len(),
        1
    );
    assert_eq!(queue.poll_worker_channel(quiet(1), &channel).len(), 0);
}

#[test]
fn waiting_request_is_told_its_rank_once() {
    let mut queue: Queue<u32, u32> = Queue::new(10, 10, 1);
    queue.poll_request_channel(requests(&["a", "b"]));
    let round = queue.poll_monitor_channel(monitor("b", 1));
    assert_eq!(round.responses.len(), 1);
    assert_eq!(round.responses[0].id, "b");
    assert_eq!(round.responses[0].status, RequestStatus::Queued(2));
    assert!(round.responses[0].test_result.is_none());
    assert!(round.finished.is_empty());
    // nothing has changed
    let round = queue.poll_monitor_channel(vec![]);
    assert!(round.responses.is_empty());
    // the first request leaves
    queue.poll_worker_channel(ready(&[true]), &channel);
    let round = queue.poll_monitor_channel(vec![]);
    assert_eq!(round.responses[0].status, RequestStatus::Queued(1));
}

#[test]
fn unknown_request_is_not_found() {
    let mut queue: Queue<u32, u32> = Queue::new(10, 10, 1);
    let round = queue.poll_monitor_channel(monitor("x", 1));
    assert_eq!(round.responses.len(), 1);
    assert_eq!(round.responses[0].status, RequestStatus::NotFound);
    assert!(round.responses[0].test_result.is_none());
    assert_eq!(round.finished, strings(&["x"]));
    assert_eq!(queue.monitor(&"x".to_string()), Some(&1));
    assert!(queue.settle(round.finished, vec![]).is_empty());
    assert_eq!(queue.monitor(&"x".to_string()), None);
    assert!(queue.poll_monitor_channel(vec![]).responses.is_empty());
}

#[test]
fn output_reaches_the_monitor_line_by_line() {
    let mut queue = running("a");
    let round = queue.poll_monitor_channel(monitor("a", 1));
    assert!(round.responses.is_empty());
    assert!(round.finished.is_empty());
    queue.poll_worker_channel(heard(vec![line("a", "one"), line("a", "two")]), &channel);
    let round = queue.poll_monitor_channel(vec![]);
    let got: Vec<String> = round
        .responses
        .iter()
        .map(|r| r.test_result.as_ref().unwrap().output.clone())
        .collect();
    assert_eq!(got, strings(&["one", "two"]));
    assert!(round
        .responses
        .iter()
        .all(|r| r.status == RequestStatus::Processing));
    assert!(round.finished.is_empty());
    // nothing is told twice
    assert!(queue.poll_monitor_channel(vec![]).responses.is_empty());
    queue.poll_worker_channel(
        heard(vec![
            line("a", "three"),
            completed_result("a".to_string(), 12),
        ]),
        &channel,
    );
    let round = queue.poll_monitor_channel(vec![]);
    assert_eq!(round.responses.len(), 2);
    let last = &round.responses[1];
    assert_eq!(last.status, RequestStatus::Completed);
    let result = last.test_result.as_ref().unwrap();
    assert_eq!(result.result_code, ResultCode::Completed);
    assert_eq!(result.time_ms, 12);
    assert_eq!(result.output, "");
    assert_eq!(round.finished, strings(&["a"]));
    assert_eq!(queue.settle(round.finished, vec![]), vec![7]);
    // the result was taken
    let round = queue.poll_monitor_channel(monitor("a", 2));
    assert_eq!(round.responses[0].status, RequestStatus::NotFound);
}

#[test]
fn every_ending_is_told_as_completed_without_output() {
    let ends = vec![
        canceled_result("a".to_string(), 1),
        tle_result("a".to_string(), 1),
        runtime_error_result("a".to_string(), 1, "broken".to_string()),
        server_error_result("a".to_string(), 1, "broken".to_string()),
    ];
    for end in ends {
        let code = end.result_code;
        let mut queue = running("a");
        queue.poll_worker_channel(heard(vec![end]), &channel);
        let round = queue.poll_monitor_channel(monitor("a", 1));
        assert_eq!(round.responses[0].status, RequestStatus::Completed);
        let result = round.responses[0].test_result.as_ref().unwrap();
        assert_eq!(result.result_code, code);
        assert_eq!(result.output, "");
        assert_eq!(round.finished, strings(&["a"]));
    }
}

#[test]
fn reports_of_unknown_requests_are_dropped() {
    let mut queue = running("a");
    queue.poll_worker_channel(heard(vec![line("z", "lost")]), &channel);
    let round = queue.poll_monitor_channel(monitor("z", 1));
    assert_eq!(round.responses[0].status, RequestStatus::NotFound);
}

#[test]
fn reports_wait_for_a_monitor() {
    let mut queue = running("a");
    queue.poll_worker_channel(heard(vec![line("a", "early")]), &channel);
    assert!(queue.poll_monitor_channel(vec![]).responses.is_empty());
    let round = queue.poll_monitor_channel(monitor("a", 1));
    assert_eq!(
        round.responses[0].test_result.as_ref().unwrap().output,
        "early"
    );
}

#[test]
fn oldest_result_is_dropped_when_too_many_are_kept() {
    let mut queue: Queue<u32, u32> = Queue::new(10, 2, 3);
    queue.poll_request_channel(requests(&["a", "b", "c"]));
    queue.poll_worker_channel(ready(&[true, true, false]), &channel);
    queue.poll_monitor_channel(monitor("a", 1));
    assert_eq!(queue.monitor(&"a".to_string()), Some(&1));
    queue.poll_worker_channel(ready(&[false, false, true]), &channel);
    // the monitor of the oldest went with its result
    assert_eq!(queue.monitor(&"a".to_string()), None);
    let round = queue.poll_monitor_channel(monitor("a", 1));
    assert_eq!(round.responses[0].status, RequestStatus::NotFound);
    // the others are still there
    let mut incoming = monitor("b", 2);
    incoming.extend(monitor("c", 3));
    queue.settle(round.finished, vec![]);
    assert!(queue.poll_monitor_channel(incoming).responses.is_empty());
}

#[test]
fn many_lines_of_one_request_are_all_kept() {
    let mut queue: Queue<u32, u32> = Queue::new(10, 1, 1);
    queue.poll_request_channel(requests(&["a"]));
    queue.poll_worker_channel(ready(&[true]), &channel);
    let lines: Vec<TestResult> = (0..50).map(|i| line("a", &format!("{}", i))).collect();
    queue.poll_worker_channel(heard(lines), &channel);
    let round = queue.poll_monitor_channel(monitor("a", 1));
    assert_eq!(round.responses.len(), 50);
    assert_eq!(
        round.responses[49].test_result.as_ref().unwrap().output,
        "49"
    );
}

#[test]
fn no_results_are_kept_without_result_capacity() {
    let mut queue: Queue<u32, u32> = Queue::new(10, 0, 1);
    queue.poll_request_channel(requests(&["a"]));
    assert_eq!(
        queue.poll_worker_channel(ready(&[true]), &channel).len(),
        1
    );
    let round = queue.poll_monitor_channel(monitor("a", 1));
    assert_eq!(round.responses[0].status, RequestStatus::NotFound);
}

#[test]
fn disconnected_monitor_cancels_the_running_test() {
    let mut queue = running("a");
    queue.poll_worker_channel(heard(vec![line("a", "one")]), &channel);
    let round = queue.poll_monitor_channel(monitor("a", 1));
    assert_eq!(round.responses.len(), 1);
    assert!(round.finished.is_empty());
    let signals = queue.settle(round.finished, strings(&["a", "a"]));
    assert_eq!(signals, vec![7]);
    assert_eq!(queue.monitor(&"a".to_string()), None);
}

#[test]
fn disconnected_monitor_withdraws_the_waiting_request() {
    let mut queue: Queue<u32, u32> = Queue::new(10, 10, 1);
    queue.poll_request_channel(requests(&["a", "b"]));
    let round = queue.poll_monitor_channel(monitor("a", 1));
    assert_eq!(round.responses[0].status, RequestStatus::Queued(1));
    assert!(queue.settle(round.finished, strings(&["a"])).is_empty());
    let sent = queue.poll_worker_channel(ready(&[true]), &channel);
    assert_eq!(sent[0].request.id, "b");
}

#[test]
fn later_monitor_replaces_the_earlier_one() {
    let mut queue = running("a");
    let mut incoming = monitor("a", 1);
    incoming.extend(monitor("a", 2));
    queue.poll_monitor_channel(incoming);
    assert_eq!(queue.monitor(&"a".to_string()), Some(&2));
}

#[test]
fn monitors_are_answered_independently() {
    let mut queue: Queue<u32, u32> = Queue::new(10, 10, 1);
    queue.poll_request_channel(requests(&["a", "b"]));
    queue.poll_worker_channel(ready(&[true]), &channel);
    queue.poll_worker_channel(heard(vec![line("a", "one")]), &channel);
    let mut incoming = monitor("a", 1);
    incoming.extend(monitor("b", 2));
    incoming.extend(monitor("x", 3));
    let round = queue.poll_monitor_channel(incoming);
    let got: Vec<(String, RequestStatus)> = round
        .responses
        .iter()
        .map(|r| (r.id.clone(), r.status))
        .collect();
    assert_eq!(
        got,
        vec![
            ("a".to_string(), RequestStatus::Processing),
            ("b".to_string(), RequestStatus::Queued(1)),
            ("x".to_string(), RequestStatus::NotFound),
        ]
    );
    assert_eq!(round.finished, strings(&["x"]));
}

#[test]
fn one_turn_takes_in_hands_out_and_tells() {
    let mut queue: Queue<u32, u32> = Queue::new(1, 10, 1);
    let turn: PollRound<u32> = queue.poll(
        requests(&["a", "b"]),
        ready(&[true]),
        monitor("a", 1),
        &channel,
    );
    assert_eq!(turn.replies, vec![Ok("a".to_string()), Err(())]);
    assert_eq!(turn.dispatches.len(), 1);
    assert_eq!(turn.dispatches[0].request.id, "a");
    // the request is with the worker already, so there is no rank to tell
    assert!(turn.round.responses.is_empty());
    assert!(turn.round.finished.is_empty());
    let turn = queue.poll(
        vec![],
        heard(vec![canceled_result("a".to_string(), 5)]),
        vec![],
        &channel,
    );
    assert_eq!(turn.round.finished, strings(&["a"]));
    assert_eq!(queue.settle(turn.round.finished, vec![]), vec![7]);
}

#[test]
fn silent_running_test_is_not_told() {
    let mut queue = running("a");
    let round = queue.poll_monitor_channel(monitor("a", 1));
    assert!(round.responses.is_empty());
    assert!(round.finished.is_empty());
    let round = queue.poll_monitor_channel(vec![]);
    assert!(round.responses.is_empty());
    assert_eq!(queue.monitor(&"a".to_string()), Some(&1));
}

#[test]
fn output_spread_over_turns_is_told_once_and_in_order() {
    let mut queue = running("a");
    let mut told: Vec<String> = Vec::new();
    let mut incoming = monitor("a", 1);
    for batch in [&["1", "2"][..], &[][..], &["3"][..], &["4", "5"][..]] {
        let results = batch.iter().map(|text| line("a", text)).collect();
        queue.poll_worker_channel(heard(results), &channel);
        let round = queue.poll_monitor_channel(incoming);
        incoming = vec![];
        for response in round.responses {
            told.push(response.test_result.unwrap().output);
        }
        assert!(round.finished.is_empty());
    }
    assert_eq!(told, strings(&["1", "2", "3", "4", "5"]));
    queue.poll_worker_channel(heard(vec![completed_result("a".to_string(), 9)]), &channel);
    let round = queue.poll_monitor_channel(vec![]);
    assert_eq!(round.responses.len(), 1);
    assert_eq!(round.responses[0].status, RequestStatus::Completed);
    assert_eq!(round.finished, strings(&["a"]));
}

#[test]
fn each_monitor_gets_its_own_news() {
    let mut queue: Queue<u32, u32> = Queue::new(10, 10, 2);
    queue.poll_request_channel(requests(&["a", "b", "c"]));
    queue.poll_worker_channel(ready(&[true, true]), &channel);
    let events = vec![
        WorkerEvents {
            results: vec![line("a", "x"), line("a", "y")],
            ready: false,
        },
        WorkerEvents {
            results: vec![line("b", "z")],
            ready: false,
        },
    ];
    queue.poll_worker_channel(events, &channel);
    let round = queue.poll_monitor_channel(vec![
        ("b".to_string(), 2),
        ("c".to_string(), 3),
        ("a".to_string(), 1),
        ("d".to_string(), 4),
    ]);
    let of = |id: &str| -> Vec<String> {
        round
            .responses
            .iter()
            .filter(|r| r.id == id)
            .map(|r| match &r.test_result {
                Some(t) => t.output.clone(),
                None => format!("{:?}", r.status),
            })
            .collect()
    };
    assert_eq!(of("a"), strings(&["x", "y"]));
    assert_eq!(of("b"), strings(&["z"]));
    assert_eq!(of("c"), strings(&["Queued(1)"]));
    assert_eq!(of("d"), strings(&["NotFound"]));
    assert_eq!(round.finished, strings(&["d"]));
}

#[test]
fn request_given_up_twice_gets_one_signal() {
    let mut queue = running("a");
    assert_eq!(queue.settle(strings(&["a", "a"]), strings(&["a", "x"])), vec![7]);
    assert_eq!(queue.settle(strings(&["a"]), vec![]), Vec::<u32>::new());
}

#[test]
fn later_monitor_of_a_dropped_request_cancels_it() {
    let mut queue: Queue<u32, u32> = Queue::new(10, 1, 2);
    queue.poll_request_channel(requests(&["a", "b"]));
    let sent = queue.poll_worker_channel(ready(&[true, true]), &channel);
    assert_eq!(sent.len(), 2);
    let round = queue.poll_monitor_channel(monitor("a", 1));
    assert_eq!(round.responses.len(), 1);
    assert_eq!(round.responses[0].status, RequestStatus::NotFound);
    assert_eq!(round.finished, strings(&["a"]));
    assert_eq!(queue.settle(round.finished, vec![]), vec![7]);
}

#[test]
fn round_after_a_settled_one_is_quiet() {
    let mut queue: Queue<u32, u32> = Queue::new(10, 10, 1);
    queue.poll_request_channel(requests(&["a", "b"]));
    queue.poll_worker_channel(ready(&[true]), &channel);
    queue.poll_worker_channel(heard(vec![line("a", "one")]), &channel);
    let mut incoming = monitor("a", 1);
    incoming.extend(monitor("b", 2));
    incoming.extend(monitor("x", 3));
    let round = queue.poll_monitor_channel(incoming);
    assert_eq!(round.responses.len(), 3);
    queue.settle(round.finished, vec![]);
    let round = queue.poll_monitor_channel(vec![]);
    assert!(round.responses.is_empty());
    assert!(round.finished.is_empty());
}

#[test]
fn withdrawn_request_lets_others_move_up() {
    let mut queue: Queue<u32, u32> = Queue::new(10, 10, 1);
    queue.poll_request_channel(requests(&["a", "b"]));
    let mut incoming = monitor("a", 1);
    incoming.extend(monitor("b", 2));
    queue.poll_monitor_channel(incoming);
    queue.settle(vec![], strings(&["a"]));
    let round = queue.poll_monitor_channel(vec![]);
    assert_eq!(round.responses.len(), 1);
    assert_eq!(round.responses[0].status, RequestStatus::Queued(1));
}

#[test]
fn worker_gets_no_more_requests_than_it_gave_signals() {
    let mut queue: Queue<u32, u32> = Queue::new(10, 10, 2);
    let mut handed: Vec<(usize, String)> = Vec::new();
    let turns = [[true, false], [true, true], [false, false], [false, true]];
    let mut incoming = requests(&["a", "b", "c", "d", "e"]);
    for flags in turns {
        let turn = queue.poll(incoming, ready(&flags), vec![], &channel);
        incoming = vec![];
        for dispatch in turn.dispatches {
            handed.push((dispatch.worker, dispatch.request.id));
        }
        queue.settle(turn.round.finished, vec![]);
    }
    let order: Vec<String> = handed.iter().map(|h| h.1.clone()).collect();
    assert_eq!(order, strings(&["a", "b", "c", "d"]));
    assert_eq!(handed.iter().filter(|h| h.0 == 0).count(), 2);
    assert_eq!(handed.iter().filter(|h| h.0 == 1).count(), 2);
}

#[test]
fn whole_test_is_told_over_whole_turns() {
    let mut queue: Queue<u32, u32> = Queue::new(10, 10, 2);
    let first = queue.poll(requests(&["a", "b", "c"]), ready(&[true, true]), vec![], &channel);
    assert_eq!(first.dispatches.len(), 2);
    queue.settle(first.round.finished, vec![]);
    let mut incoming = monitor("a", 1);
    incoming.extend(monitor("c", 3));
    let mut told: Vec<(RequestStatus, String)> = Vec::new();
    let batches = vec![
        vec![line("a", "1"), line("a", "2")],
        vec![],
        vec![line("a", "3")],
        vec![completed_result("a".to_string(), 5)],
    ];
    for results in batches {
        let events = vec![
            WorkerEvents {
                results,
                ready: false,
            },
            WorkerEvents {
                results: vec![line("b", "other")],
                ready: false,
            },
        ];
        let turn = queue.poll(vec![], events, incoming, &channel);
        incoming = vec![];
        for response in turn.round.responses {
            if response.id == "a" {
                told.push((response.status, response.test_result.unwrap().output));
            }
        }
        queue.settle(turn.round.finished, vec![]);
    }
    assert_eq!(
        told,
        vec![
            (RequestStatus::Processing, "1".to_string()),
            (RequestStatus::Processing, "2".to_string()),
            (RequestStatus::Processing, "3".to_string()),
            (RequestStatus::Completed, "".to_string()),
        ]
    );
    assert_eq!(queue.monitor(&"a".to_string()), None);
    let quiet_turn = queue.poll_monitor_channel(vec![]);
    assert!(quiet_turn.responses.is_empty());
}

#[test]
fn handed_out_request_does_not_wait() {
    let mut queue: Queue<u32, u32> = Queue::new(10, 10, 1);
    queue.poll_request_channel(requests(&["a", "b"]));
    queue.poll_worker_channel(ready(&[true]), &channel);
    let mut incoming = monitor("a", 1);
    incoming.extend(monitor("b", 2));
    let round = queue.poll_monitor_channel(incoming);
    assert_eq!(round.responses.len(), 1);
    assert_eq!(round.responses[0].id, "b");
    assert_eq!(round.responses[0].status, RequestStatus::Queued(1));
}
