//! Workers: what a worker runs for a request, and what it reports of the run.

use vstd::prelude::*;
use vstd::string::*;

use crate::server::queue::{RequestItem, RequestType};
use crate::table;
use crate::table::Table;
use crate::text;

verus! {

/// How far a test has come, or how it ended.
#[derive(Debug, PartialEq, Eq, Clone, Copy, Structural)]
pub enum ResultCode {
    Processing,
    Completed,
    Canceled,
    TimeLimitExceeded,
    RuntimeError,
    ServerError,
}

/// One report of a worker on a test.
#[derive(Debug, Clone)]
pub struct TestResult {
    /// Unique identifier for the request
    pub id: String,
    /// The point of the test
    pub point: u32,
    /// The total point of the test
    pub total: u32,
    /// The detailed output of the test
    pub output: String,
    /// The time taken for the test in milliseconds
    pub time_ms: u64,
    /// The result code of the test
    pub result_code: ResultCode,
}

/// What a [`TestResult`] holds.
pub struct TestResultView {
    pub id: Seq<char>,
    pub point: u32,
    pub total: u32,
    pub output: Seq<char>,
    pub time_ms: u64,
    pub result_code: ResultCode,
}

impl View for TestResult {
    type V = TestResultView;

    open spec fn view(&self) -> TestResultView {
        TestResultView {
            id: self.id@,
            point: self.point,
            total: self.total,
            output: self.output@,
            time_ms: self.time_ms,
            result_code: self.result_code,
        }
    }
}

impl ResultCode {
    /// The name of the code.
    pub open spec fn spec_name(self) -> Seq<char> {
        match self {
            ResultCode::Processing => "Processing"@,
            ResultCode::Completed => "Completed"@,
            ResultCode::Canceled => "Canceled"@,
            ResultCode::TimeLimitExceeded => "TimeLimitExceeded"@,
            ResultCode::RuntimeError => "RuntimeError"@,
            ResultCode::ServerError => "ServerError"@,
        }
    }

    /// The name of the code.
    pub fn name(&self) -> (s: String)
        ensures
            s@ == self.spec_name(),
    {
        match self {
            ResultCode::Processing => "Processing".to_owned(),
            ResultCode::Completed => "Completed".to_owned(),
            ResultCode::Canceled => "Canceled".to_owned(),
            ResultCode::TimeLimitExceeded => "TimeLimitExceeded".to_owned(),
            ResultCode::RuntimeError => "RuntimeError".to_owned(),
            ResultCode::ServerError => "ServerError".to_owned(),
        }
    }
}

/// The JSON form of a report: an object with its fields in order, without blanks.
pub open spec fn report_json(r: TestResultView) -> Seq<char> {
    "{\"id\":"@ + text::json_quoted(r.id) + ",\"point\":"@ + text::decimal(r.point as nat)
        + ",\"total\":"@ + text::decimal(r.total as nat) + ",\"output\":"@ + text::json_quoted(
        r.output,
    ) + ",\"time_ms\":"@ + text::decimal(r.time_ms as nat) + ",\"result_code\":\""@
        + r.result_code.spec_name() + "\"}"@
}

/// Writes a report in its JSON form.
pub fn report_text(r: &TestResult) -> (s: String)
    ensures
        s@ == report_json(r@),
{
    let mut s = "{\"id\":".to_owned();
    s.append(text::json_text(r.id.as_str()).as_str());
    s.append(",\"point\":");
    s.append(text::decimal_text(r.point as u64).as_str());
    s.append(",\"total\":");
    s.append(text::decimal_text(r.total as u64).as_str());
    s.append(",\"output\":");
    s.append(text::json_text(r.output.as_str()).as_str());
    s.append(",\"time_ms\":");
    s.append(text::decimal_text(r.time_ms).as_str());
    s.append(",\"result_code\":\"");
    s.append(r.result_code.name().as_str());
    s.append("\"}");
    s
}

/// A report without points.
pub open spec fn report(
    id: Seq<char>,
    output: Seq<char>,
    time_ms: u64,
    result_code: ResultCode,
) -> TestResultView {
    TestResultView { id, point: 0, total: 0, output, time_ms, result_code }
}

/// The report of one line of output.
pub fn processing_result(request_id: String, output: String) -> (r: TestResult)
    ensures
        r@ == report(request_id@, output@, 0, ResultCode::Processing),
{
    TestResult {
        id: request_id,
        point: 0,
        total: 0,
        output,
        time_ms: 0,
        result_code: ResultCode::Processing,
    }
}

/// The report of a test that exceeded the time limit.
pub fn tle_result(request_id: String, duration: u64) -> (r: TestResult)
    ensures
        r@ == report(
            request_id@,
            "TimeLimitExceeded: Your test exceeded the time limit."@,
            duration,
            ResultCode::TimeLimitExceeded,
        ),
{
    TestResult {
        id: request_id,
        point: 0,
        total: 0,
        output: "TimeLimitExceeded: Your test exceeded the time limit.".to_owned(),
        time_ms: duration,
        result_code: ResultCode::TimeLimitExceeded,
    }
}

/// The report of a test that ran to its end.
pub fn completed_result(request_id: String, duration: u64) -> (r: TestResult)
    ensures
        r@ == report(request_id@, "Completed"@, duration, ResultCode::Completed),
{
    TestResult {
        id: request_id,
        point: 0,
        total: 0,
        output: "Completed".to_owned(),
        time_ms: duration,
        result_code: ResultCode::Completed,
    }
}

/// The report of a test that was canceled.
pub fn canceled_result(request_id: String, duration: u64) -> (r: TestResult)
    ensures
        r@ == report(request_id@, "Canceled"@, duration, ResultCode::Canceled),
{
    TestResult {
        id: request_id,
        point: 0,
        total: 0,
        output: "Canceled".to_owned(),
        time_ms: duration,
        result_code: ResultCode::Canceled,
    }
}

/// The report of a test whose output could not be read.
pub fn runtime_error_result(request_id: String, duration: u64, error_message: String) -> (r:
    TestResult)
    ensures
        r@ == report(request_id@, error_message@, duration, ResultCode::RuntimeError),
{
    TestResult {
        id: request_id,
        point: 0,
        total: 0,
        output: error_message,
        time_ms: duration,
        result_code: ResultCode::RuntimeError,
    }
}

/// The report of a test that could not be started.
pub fn server_error_result(request_id: String, duration: u64, error_message: String) -> (r:
    TestResult)
    ensures
        r@ == report(request_id@, error_message@, duration, ResultCode::ServerError),
{
    TestResult {
        id: request_id,
        point: 0,
        total: 0,
        output: error_message,
        time_ms: duration,
        result_code: ResultCode::ServerError,
    }
}

/// What can happen to a running test.
#[derive(Debug)]
pub enum RunEvent {
    /// The command could not be started; the text says why
    SpawnFailed(String),
    /// The cancel channel has a signal or is gone
    CancelSignal,
    /// The command wrote a line
    Line(String),
    /// The output of the command could not be read; the text says why
    ReadFailed(String),
    /// The command has closed its output
    EndOfOutput,
    /// The last report found no receiver
    ReportRefused,
    /// The time limit has passed
    TimedOut,
}

/// How a run ended.
#[derive(Debug)]
pub enum RunOutcome {
    /// The test ran to its end, or nobody takes its reports any more
    Done,
    Canceled,
    TimedOut,
    /// The output could not be read; the text is the error message
    ReadFailed(String),
    /// The command could not be started; the text is the error message
    SpawnFailed(String),
}

/// What a worker does next about a running test.
#[derive(Debug)]
pub enum RunStep {
    /// Send a report and go on
    Report(TestResult),
    /// Kill the command and end the run
    Kill(RunOutcome),
    /// End the run
    Finish(RunOutcome),
}

/// What a [`RunOutcome`] holds.
pub enum RunOutcomeView {
    Done,
    Canceled,
    TimedOut,
    ReadFailed(Seq<char>),
    SpawnFailed(Seq<char>),
}

impl View for RunOutcome {
    type V = RunOutcomeView;

    open spec fn view(&self) -> RunOutcomeView {
        match self {
            RunOutcome::Done => RunOutcomeView::Done,
            RunOutcome::Canceled => RunOutcomeView::Canceled,
            RunOutcome::TimedOut => RunOutcomeView::TimedOut,
            RunOutcome::ReadFailed(m) => RunOutcomeView::ReadFailed(m@),
            RunOutcome::SpawnFailed(m) => RunOutcomeView::SpawnFailed(m@),
        }
    }
}

/// What a [`RunStep`] holds.
pub enum RunStepView {
    Report(TestResultView),
    Kill(RunOutcomeView),
    Finish(RunOutcomeView),
}

impl View for RunStep {
    type V = RunStepView;

    open spec fn view(&self) -> RunStepView {
        match self {
            RunStep::Report(r) => RunStepView::Report(r@),
            RunStep::Kill(o) => RunStepView::Kill(o@),
            RunStep::Finish(o) => RunStepView::Finish(o@),
        }
    }
}

/// What a worker does about an event of a running test.
pub open spec fn step_of(request_id: Seq<char>, event: RunEvent) -> RunStepView {
    match event {
        RunEvent::SpawnFailed(why) => RunStepView::Finish(
            RunOutcomeView::SpawnFailed("Failed to spawn process: "@ + why@),
        ),
        RunEvent::CancelSignal => RunStepView::Kill(RunOutcomeView::Canceled),
        RunEvent::Line(line) => RunStepView::Report(
            report(request_id, line@, 0, ResultCode::Processing),
        ),
        RunEvent::ReadFailed(why) => RunStepView::Finish(
            RunOutcomeView::ReadFailed("Error reading output: "@ + why@),
        ),
        RunEvent::EndOfOutput => RunStepView::Finish(RunOutcomeView::Done),
        RunEvent::ReportRefused => RunStepView::Finish(RunOutcomeView::Done),
        RunEvent::TimedOut => RunStepView::Kill(RunOutcomeView::TimedOut),
    }
}

/// The last report of a run.
pub open spec fn conclusion(
    request_id: Seq<char>,
    outcome: RunOutcomeView,
    duration: u64,
) -> TestResultView {
    match outcome {
        RunOutcomeView::Done => report(
            request_id,
            "Completed"@,
            duration,
            ResultCode::Completed,
        ),
        RunOutcomeView::Canceled => report(
            request_id,
            "Canceled"@,
            duration,
            ResultCode::Canceled,
        ),
        RunOutcomeView::TimedOut => report(
            request_id,
            "TimeLimitExceeded: Your test exceeded the time limit."@,
            duration,
            ResultCode::TimeLimitExceeded,
        ),
        RunOutcomeView::ReadFailed(message) => report(
            request_id,
            message,
            duration,
            ResultCode::RuntimeError,
        ),
        RunOutcomeView::SpawnFailed(message) => report(
            request_id,
            message,
            duration,
            ResultCode::ServerError,
        ),
    }
}

/// A reading of the clock: seconds since the start of 1970, and nanoseconds in
/// the current second.
#[derive(Debug, Clone, Copy)]
pub struct ClockReading {
    pub secs: i64,
    pub nanos: u32,
}

impl ClockReading {
    /// Within the range of dates that `chrono` has, and not in a leap second.
    pub open spec fn in_range(self) -> bool {
        &&& -8_334_601_228_800 <= self.secs <= 8_210_266_876_799
        &&& self.nanos < 1_000_000_000
    }

    /// The nanoseconds since the start of 1970.
    pub open spec fn total_nanos(self) -> int {
        self.secs * 1_000_000_000 + self.nanos
    }
}

/// A number of nanoseconds in whole milliseconds, rounded towards zero.
pub open spec fn whole_millis(nanos: int) -> int {
    if nanos >= 0 {
        nanos / 1_000_000
    } else {
        -((-nanos) / 1_000_000)
    }
}

/// The milliseconds from one reading of the clock to another. Makes two
/// `chrono::DateTime<Utc>` with `from_timestamp`, which has a value for each pair
/// in the range of `in_range`, subtracts them and calls
/// `TimeDelta::num_milliseconds`, which counts whole milliseconds and rounds
/// towards zero. The difference is negative if the clock was set back.
#[verifier::external_body]
fn millis_between(start: ClockReading, end: ClockReading) -> (ms: i64)
    requires
        start.in_range(),
        end.in_range(),
    ensures
        ms == whole_millis(end.total_nanos() - start.total_nanos()),
{
    let start_time = chrono::DateTime::from_timestamp(start.secs, start.nanos).unwrap();
    let end_time = chrono::DateTime::from_timestamp(end.secs, end.nanos).unwrap();
    (end_time - start_time).num_milliseconds()
}

/// The duration that is reported for a run: the milliseconds between the two
/// readings, modulo 2^64.
pub open spec fn duration_of(start: ClockReading, end: ClockReading) -> u64 {
    (whole_millis(end.total_nanos() - start.total_nanos()) % 0x1_0000_0000_0000_0000) as u64
}

/// What a worker runs for a request.
#[derive(Debug)]
pub struct TestTask {
    /// Unique identifier for the request
    pub request_id: String,
    /// The command
    pub command: String,
    /// Its arguments
    pub args: Vec<String>,
    /// The file that is removed when the run has ended
    pub cleanup: Option<String>,
}

/// The arguments with each `$FILE` replaced by the path of the uploaded file.
pub open spec fn with_file(args: Seq<Seq<char>>, path: Seq<char>) -> Seq<Seq<char>> {
    args.map_values(
        |a: Seq<char>|
            if a == "$FILE"@ {
                path
            } else {
                a
            },
    )
}

impl RequestType {
    /// The name of the lab in the configuration.
    pub open spec fn spec_name(self) -> Seq<char> {
        match self {
            RequestType::Lab1 => "Lab1"@,
            RequestType::Lab2 => "Lab2"@,
            RequestType::Lab3 => "Lab3"@,
        }
    }

    /// The name of the lab in the configuration.
    pub fn name(&self) -> (s: String)
        ensures
            s@ == self.spec_name(),
    {
        match self {
            RequestType::Lab1 => "Lab1".to_owned(),
            RequestType::Lab2 => "Lab2".to_owned(),
            RequestType::Lab3 => "Lab3".to_owned(),
        }
    }
}

/// Worker to process requests from the queue
///
/// A worker decides what to run for a request, what to do about each event of
/// the run, and what to report at its end.
#[derive(Debug)]
pub struct Worker {
    /// Worker id
    pub id: usize,
    /// Time limit for each test in milliseconds
    pub time_limit_ms: u64,
    /// lab command mapping
    pub lab_command: Table<Vec<String>>,
}

impl Worker {
    pub fn new(id: usize, time_limit_ms: u64, lab_command: Table<Vec<String>>) -> (worker: Self)
        ensures
            worker.id == id,
            worker.time_limit_ms == time_limit_ms,
            worker.lab_command == lab_command,
    {
        Worker { id, time_limit_ms, lab_command }
    }

    /// The command line for a lab, if the configuration has one.
    pub open spec fn command_line(self, lab: RequestType) -> Option<Seq<Seq<char>>> {
        match table::lookup(self.lab_command@, lab.spec_name()) {
            Some(line) => Some(text::texts(line@)),
            None => None,
        }
    }

    /// A task that says why nothing is tested.
    fn echo(request_id: String, message: &str) -> (task: TestTask)
        ensures
            task.request_id@ == request_id@,
            task.command@ == "echo"@,
            text::texts(task.args@) == seq![message@],
            task.cleanup is None,
    {
        let mut args: Vec<String> = Vec::new();
        args.push(message.to_owned());
        assert(text::texts(args@) =~= seq![message@]);
        TestTask { request_id, command: "echo".to_owned(), args, cleanup: None }
    }

    /// Whether a task is what is to be run for a request, when the uploaded file is
    /// at a path: the command line of the lab with that path, after which the file
    /// is removed, or an `echo` that says that there is none.
    pub open spec fn is_task(
        self,
        task: TestTask,
        request_id: Seq<char>,
        lab: RequestType,
        path: Seq<char>,
    ) -> bool {
        &&& task.request_id@ == request_id
        &&& match self.command_line(lab) {
            None => {
                &&& task.command@ == "echo"@
                &&& text::texts(task.args@) == seq!["Unknown lab command."@]
                &&& task.cleanup is None
            },
            Some(line) => if line.len() == 0 {
                &&& task.command@ == "echo"@
                &&& text::texts(task.args@) == seq!["Empty command for lab."@]
                &&& task.cleanup is None
            } else {
                &&& task.command@ == line[0]
                &&& text::texts(task.args@) == with_file(line.drop_first(), path)
                &&& task.cleanup matches Some(file) && file@ == path
            },
        }
    }

    /// What to run for a request of a lab, when the uploaded file is at a path.
    pub fn task(&self, request_id: String, lab: RequestType, path: String) -> (task: TestTask)
        ensures
            self.is_task(task, request_id@, lab, path@),
    {
        let lab_name = lab.name();
        match self.lab_command.get(&lab_name) {
            None => Self::echo(request_id, "Unknown lab command."),
            Some(line) => {
                if line.len() == 0 {
                    return Self::echo(request_id, "Empty command for lab.");
                }
                let mut args: Vec<String> = Vec::new();
                let mut i: usize = 1;
                let ghost all = with_file(text::texts(line@).drop_first(), path@);
                while i < line.len()
                    invariant
                        1 <= i <= line@.len(),
                        all == with_file(text::texts(line@).drop_first(), path@),
                        args@.len() == i - 1,
                        forall|j: int| 0 <= j < i - 1 ==> (#[trigger] args@[j])@ == all[j],
                    decreases line@.len() - i,
                {
                    if text::same_text(line[i].as_str(), "$FILE") {
                        args.push(path.clone());
                    } else {
                        args.push(line[i].clone());
                    }
                    i += 1;
                }
                assert(text::texts(args@) =~= all);
                TestTask { request_id, command: line[0].clone(), args, cleanup: Some(path) }
            },
        }
    }

    /// What to run for a request. Its body is the path of the uploaded file.
    pub fn poll(&self, request: RequestItem) -> (task: TestTask)
        ensures
            self.is_task(
                task,
                request.id@,
                request.req_type,
                text::text_of(request.body@),
            ),
    {
        let path = text::read_lossy(&request.body);
        self.task(request.id, request.req_type, path)
    }

    /// What to do about an event of a running test.
    pub fn run_test(request_id: &String, event: RunEvent) -> (step: RunStep)
        ensures
            step@ == step_of(request_id@, event),
    {
        match event {
            RunEvent::SpawnFailed(why) => RunStep::Finish(
                RunOutcome::SpawnFailed(text::join("Failed to spawn process: ", why.as_str())),
            ),
            RunEvent::CancelSignal => RunStep::Kill(RunOutcome::Canceled),
            RunEvent::Line(line) => RunStep::Report(processing_result(request_id.clone(), line)),
            RunEvent::ReadFailed(why) => RunStep::Finish(
                RunOutcome::ReadFailed(text::join("Error reading output: ", why.as_str())),
            ),
            RunEvent::EndOfOutput => RunStep::Finish(RunOutcome::Done),
            RunEvent::ReportRefused => RunStep::Finish(RunOutcome::Done),
            RunEvent::TimedOut => RunStep::Kill(RunOutcome::TimedOut),
        }
    }

    /// The last report of a run, from how it ended and the clock at its start and its end.
    pub fn run_test_with_timeout(
        request_id: String,
        outcome: RunOutcome,
        start: ClockReading,
        end: ClockReading,
    ) -> (r: TestResult)
        requires
            start.in_range(),
            end.in_range(),
        ensures
            r@ == conclusion(request_id@, outcome@, duration_of(start, end)),
    {
        let ms = millis_between(start, end);
        let duration = ms as u64;
        proof {
            assert(duration == (ms as int) % 0x1_0000_0000_0000_0000) by {
                assert(ms < 0 ==> (ms as u64) == ms + 0x1_0000_0000_0000_0000) by (bit_vector);
            }
        }
        match outcome {
            RunOutcome::Done => completed_result(request_id, duration),
            RunOutcome::Canceled => canceled_result(request_id, duration),
            RunOutcome::TimedOut => tle_result(request_id, duration),
            RunOutcome::ReadFailed(message) => runtime_error_result(request_id, duration, message),
            RunOutcome::SpawnFailed(message) => server_error_result(request_id, duration, message),
        }
    }
}

} // verus!
