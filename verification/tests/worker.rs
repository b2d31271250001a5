use tacos_test_server::server::queue::{RequestItem, RequestType};
use tacos_test_server::server::worker::{
    ClockReading, ResultCode, RunEvent, RunOutcome, RunStep, Worker,
};
use tacos_test_server::table::Table;

fn words(list: &[&str]) -> Vec<String> {
    list.iter().map(|w| w.to_string()).collect()
}

fn worker() -> Worker {
    let mut lab_command: Table<Vec<String>> = Table::new();
    lab_command.put(
        "Lab1".to_string(),
        words(&["bash", "/srv/lab_script.sh", "$FILE", "lab1", "x$FILE"]),
    );
    lab_command.put("Lab2".to_string(), vec![]);
    Worker::new(3, 1000, lab_command)
}

fn request(req_type: RequestType, body: &[u8]) -> RequestItem {
    RequestItem {
        id: "id".to_string(),
        req_type,
        body: body.to_vec(),
    }
}

fn reading(secs: i64, nanos: u32) -> ClockReading {
    ClockReading { secs, nanos }
}

fn conclude(outcome: RunOutcome) -> (String, ResultCode, u64) {
    let r = Worker::run_test_with_timeout(
        "id".to_string(),
        outcome,
        reading(100, 999_999_999),
        reading(103, 500_000_000),
    );
    assert_eq!(r.id, "id");
    assert_eq!((r.point, r.total), (0, 0));
    (r.output, r.result_code, r.time_ms)
}

#[test]
fn worker_keeps_its_settings() {
    let w = worker();
    assert_eq!(w.id, 3);
    assert_eq!(w.time_limit_ms, 1000);
}

#[test]
fn command_gets_the_path_of_the_file() {
    let task = worker().poll(request(RequestType::Lab1, b"/tmp/u.tar.gz"));
    assert_eq!(task.request_id, "id");
    assert_eq!(task.command, "bash");
    assert_eq!(
        task.args,
        words(&["/srv/lab_script.sh", "/tmp/u.tar.gz", "lab1", "x$FILE"])
    );
    assert_eq!(task.cleanup, Some("/tmp/u.tar.gz".to_string()));
}

#[test]
fn path_that_is_not_utf8_is_read_with_replacement() {
    let task = worker().poll(request(RequestType::Lab1, &[b'a', 0xff, b'b']));
    assert_eq!(task.args[1], "a\u{fffd}b");
    assert_eq!(task.cleanup, Some("a\u{fffd}b".to_string()));
}

#[test]
fn lab_without_entry_is_echoed() {
    let task = worker().poll(request(RequestType::Lab3, b"/tmp/u.tar.gz"));
    assert_eq!(task.command, "echo");
    assert_eq!(task.args, words(&["Unknown lab command."]));
    assert_eq!(task.cleanup, None);
}

#[test]
fn lab_with_empty_command_is_echoed() {
    let task = worker().poll(request(RequestType::Lab2, b"/tmp/u.tar.gz"));
    assert_eq!(task.command, "echo");
    assert_eq!(task.args, words(&["Empty command for lab."]));
    assert_eq!(task.cleanup, None);
}

#[test]
fn labs_have_names() {
    assert_eq!(RequestType::Lab1.name(), "Lab1");
    assert_eq!(RequestType::Lab2.name(), "Lab2");
    assert_eq!(RequestType::Lab3.name(), "Lab3");
}

#[test]
fn line_is_reported() {
    let id = "id".to_string();
    match Worker::run_test(&id, RunEvent::Line("hello".to_string())) {
        RunStep::Report(r) => {
            assert_eq!(r.id, "id");
            assert_eq!(r.output, "hello");
            assert_eq!(r.time_ms, 0);
            assert_eq!(r.result_code, ResultCode::Processing);
        }
        other => panic!("{:?}", other),
    }
}

#[test]
fn cancel_and_time_limit_kill() {
    let id = "id".to_string();
    assert!(matches!(
        Worker::run_test(&id, RunEvent::CancelSignal),
        RunStep::Kill(RunOutcome::Canceled)
    ));
    assert!(matches!(
        Worker::run_test(&id, RunEvent::TimedOut),
        RunStep::Kill(RunOutcome::TimedOut)
    ));
}

#[test]
fn end_of_output_and_refused_report_finish() {
    let id = "id".to_string();
    assert!(matches!(
        Worker::run_test(&id, RunEvent::EndOfOutput),
        RunStep::Finish(RunOutcome::Done)
    ));
    assert!(matches!(
        Worker::run_test(&id, RunEvent::ReportRefused),
        RunStep::Finish(RunOutcome::Done)
    ));
}

#[test]
fn failures_carry_a_message() {
    let id = "id".to_string();
    match Worker::run_test(&id, RunEvent::SpawnFailed("gone".to_string())) {
        RunStep::Finish(RunOutcome::SpawnFailed(m)) => {
            assert_eq!(m, "Failed to spawn process: gone")
        }
        other => panic!("{:?}", other),
    }
    match Worker::run_test(&id, RunEvent::ReadFailed("bad".to_string())) {
        RunStep::Finish(RunOutcome::ReadFailed(m)) => assert_eq!(m, "Error reading output: bad"),
        other => panic!("{:?}", other),
    }
}

#[test]
fn every_outcome_has_its_last_report() {
    assert_eq!(
        conclude(RunOutcome::Done),
        ("Completed".to_string(), ResultCode::Completed, 2500)
    );
    assert_eq!(
        conclude(RunOutcome::Canceled),
        ("Canceled".to_string(), ResultCode::Canceled, 2500)
    );
    assert_eq!(
        conclude(RunOutcome::TimedOut),
        (
            "TimeLimitExceeded: Your test exceeded the time limit.".to_string(),
            ResultCode::TimeLimitExceeded,
            2500
        )
    );
    assert_eq!(
        conclude(RunOutcome::ReadFailed("r".to_string())),
        ("r".to_string(), ResultCode::RuntimeError, 2500)
    );
    assert_eq!(
        conclude(RunOutcome::SpawnFailed("s".to_string())),
        ("s".to_string(), ResultCode::ServerError, 2500)
    );
}

#[test]
fn duration_is_rounded_towards_zero() {
    let ms = |start: ClockReading, end: ClockReading| {
        Worker::run_test_with_timeout("id".to_string(), RunOutcome::Done, start, end).time_ms
    };
    assert_eq!(ms(reading(5, 0), reading(5, 999_999)), 0);
    assert_eq!(ms(reading(5, 0), reading(5, 1_000_000)), 1);
    assert_eq!(ms(reading(-1, 0), reading(0, 1)), 1000);
    // a clock that was set back by less, and by more, than a millisecond
    assert_eq!(ms(reading(5, 999_999), reading(5, 0)), 0);
    assert_eq!(ms(reading(5, 1_999_999), reading(5, 0)), u64::MAX);
    // the whole range of dates
    assert_eq!(
        ms(
            reading(-8_334_601_228_800, 0),
            reading(8_210_266_876_799, 999_999_999)
        ),
        16_544_868_105_599_999
    );
}

#[test]
fn task_is_decided_by_lab_and_path() {
    let w = worker();
    let task = w.task("r".to_string(), RequestType::Lab1, "p".to_string());
    assert_eq!(task.request_id, "r");
    assert_eq!(task.command, "bash");
    assert_eq!(
        task.args,
        words(&["/srv/lab_script.sh", "p", "lab1", "x$FILE"])
    );
    assert_eq!(task.cleanup, Some("p".to_string()));
    let task = w.task("r".to_string(), RequestType::Lab2, "p".to_string());
    assert_eq!(task.args, words(&["Empty command for lab."]));
    assert_eq!(task.cleanup, None);
}
