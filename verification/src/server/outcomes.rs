//! What calls of the server, the uploads and the workers return, in plain terms.

use vstd::prelude::*;

use crate::config::{Config, QueueConfig, ServerConfig, TestConfig};
use crate::server;
use crate::server::answers;
use crate::server::answers::{AnswerView, LineView};
use crate::server::queue::{RequestItem, RequestResponse, RequestStatus, RequestType};
use crate::server::submission;
use crate::server::upload;
use crate::server::upload::{
    BodyEvent, FileError, LabTaskStreamStatus, SaveStep, UploadPhase, UploadReply,
};
use crate::server::worker;
use crate::server::worker::{
    ClockReading, ResultCode, RunEvent, RunOutcome, RunStep, TestResult, TestTask, Worker,
};
use crate::server::{Route, Server};
use crate::table;
use crate::table::Table;
use crate::text;

verus! {

/// The settings of a program that was given none.
pub proof fn law_default_settings(config: Config)
    requires
        call_ensures(<Config as Default>::default, (), config),
    ensures
        config.server.bind_address@ == "[::]"@,
        config.server.bind_port == 3000,
        config.server.concurrency == 16,
        config.server.channel_size == 1024,
        config.server.tmp_file_dir@ == "/tmp"@,
        config.server.upload_file_size_limit_bytes == 5 * 1024 * 1024,
        config.queue.max_requests == 100,
        config.queue.max_results == 1000,
        config.test.time_limit_secs == 30 * 60,
        config.test.lab_command@.len() == 0,
{
}

/// The default settings of the parts are those of the whole.
pub proof fn law_default_parts(
    whole: Config,
    server: ServerConfig,
    queue: QueueConfig,
    test: TestConfig,
)
    requires
        call_ensures(<Config as Default>::default, (), whole),
        call_ensures(<ServerConfig as Default>::default, (), server),
        call_ensures(<QueueConfig as Default>::default, (), queue),
        call_ensures(<TestConfig as Default>::default, (), test),
    ensures
        server.bind_address@ == whole.server.bind_address@,
        server.bind_port == whole.server.bind_port,
        server.concurrency == whole.server.concurrency,
        server.channel_size == whole.server.channel_size,
        server.tmp_file_dir@ == whole.server.tmp_file_dir@,
        server.upload_file_size_limit_bytes == whole.server.upload_file_size_limit_bytes,
        queue.max_requests == whole.queue.max_requests,
        queue.max_results == whole.queue.max_results,
        test.time_limit_secs == whole.test.time_limit_secs,
        test.lab_command@.len() == 0,
{
}

/// The address to bind to is the configured address, a colon, and the port in decimal.
pub proof fn law_bind_address(config: ServerConfig, addr: String)
    requires
        call_ensures(ServerConfig::get_bind_addr, (&config,), addr),
    ensures
        ({
            let n = config.bind_address@.len() as int;
            &&& addr@.len() > n
            &&& addr@.take(n) == config.bind_address@
            &&& addr@[n] == ':'
            &&& text::read_number(0, addr@.skip(n + 1)) == (
                config.bind_port as nat,
                Seq::<char>::empty(),
            )
        }),
{
    reveal_strlit(":");
    let n = config.bind_address@.len() as int;
    let port = text::decimal(config.bind_port as nat);
    assert(addr@.take(n) =~= config.bind_address@);
    assert(addr@.skip(n + 1) =~= port + Seq::empty());
    text::law_decimal_reads_back(config.bind_port as nat, Seq::empty());
}

/// The time limit is the same in milliseconds as in seconds.
pub proof fn law_time_limit(config: TestConfig, ms: u64)
    requires
        call_ensures(TestConfig::time_limit_ms, (&config,), ms),
    ensures
        ms == config.time_limit_secs * 1000,
{
}

/// A number that is written reads as that number.
pub proof fn law_number_text(n: u64, s: String)
    requires
        call_ensures(text::decimal_text, (n,), s),
    ensures
        text::read_number(0, s@) == (n as nat, Seq::<char>::empty()),
{
    text::law_decimal_reads_back(n as nat, Seq::empty());
    assert(s@ + Seq::<char>::empty() =~= s@);
}

/// What the pieces of text say: whether two are the same, what stands behind a
/// prefix, and two behind each other.
pub proof fn law_pieces_of_text(
    a: &str,
    b: &str,
    same: bool,
    rest: Option<String>,
    joined: String,
)
    requires
        call_ensures(text::same_text, (a, b), same),
        call_ensures(text::strip_prefix, (a, b), rest),
        call_ensures(text::join, (a, b), joined),
    ensures
        same <==> a@ == b@,
        rest is Some <==> exists|tail: Seq<char>| a@ == #[trigger] (b@ + tail),
        rest matches Some(tail) ==> a@ == b@ + tail@,
        joined@.len() == a@.len() + b@.len(),
        joined@.take(a@.len() as int) == a@,
        joined@.skip(a@.len() as int) == b@,
{
    assert(joined@.take(a@.len() as int) =~= a@);
    assert(joined@.skip(a@.len() as int) =~= b@);
    if let Some(tail) = rest {
        assert(a@ == b@ + tail@);
    }
    if exists|tail: Seq<char>| a@ == #[trigger] (b@ + tail) {
        assert(b@.is_prefix_of(a@));
    }
}

/// Getting a key from a table gives the value of the first entry that has it, and
/// nothing if none has.
pub proof fn law_table_get<V>(t: Table<V>, key: String, r: Option<&V>)
    requires
        call_ensures(Table::<V>::get, (&t, &key), r),
    ensures
        r is None <==> forall|i: int| 0 <= i < t@.len() ==> (#[trigger] t@[i]).0 != key@,
        r matches Some(v) ==> exists|i: int|
            #![trigger t@[i]]
            0 <= i < t@.len() && t@[i].0 == key@ && t@[i].1 == *v && forall|j: int|
                0 <= j < i ==> (#[trigger] t@[j]).0 != key@,
{
    table::law_lookup(t@, key@);
}

/// What was stored under a key is found under it, and what was found under another
/// key still is.
pub proof fn law_table_put<V>(
    t: &mut Table<V>,
    key: String,
    value: V,
    other: Seq<char>,
)
    requires
        call_ensures(Table::<V>::put, (t, key, value), ()),
    ensures
        table::lookup(final(t)@, key@) == Some(value),
        other != key@ ==> table::lookup(final(t)@, other) == table::lookup(old(t)@, other),
{
    table::lemma_put(old(t)@, key@, value);
}

/// Taking a key out gives the value that was found under it, and leaves what is
/// found under every other key.
pub proof fn law_table_take<V>(t: &mut Table<V>, key: String, r: Option<V>, other: Seq<char>)
    requires
        table::distinct(old(t)@),
        call_ensures(Table::<V>::take, (t, &key), r),
    ensures
        r == table::lookup(old(t)@, key@),
        table::lookup(final(t)@, key@) is None,
        other != key@ ==> table::lookup(final(t)@, other) == table::lookup(old(t)@, other),
{
    table::lemma_without(old(t)@, key@);
}

/// A server keeps the settings that it is given.
pub proof fn law_server_settings(size: usize, dir: String, limit: usize, made: Server)
    requires
        call_ensures(Server::new, (size, dir, limit), made),
    ensures
        made.channel_size == size,
        made.tmp_file_dir@ == dir@,
        made.upload_file_size_limit_bytes == limit,
{
}

/// Where a request is sent: a submission to the lab of its path, a monitor to the
/// identifier behind `/monitor/`, and nothing else anywhere but to the report.
pub proof fn law_route_taken(method: &str, path: &str, route: Route)
    requires
        call_ensures(Server::route, (method, path), route),
    ensures
        route matches Route::Lab(lab) ==> method@ == "POST"@ && path@ == match lab {
            RequestType::Lab1 => "/test/lab1"@,
            RequestType::Lab2 => "/test/lab2"@,
            RequestType::Lab3 => "/test/lab3"@,
        },
        route matches Route::Monitor(id) ==> method@ == "GET"@ && path@ == "/monitor/"@ + id@,
        route is Report ==> method@ == "GET"@ && path@ == "/report"@,
        route is NotFound ==> {
            &&& method@ == "POST"@ ==> path@ != "/test/lab1"@ && path@ != "/test/lab2"@ && path@
                != "/test/lab3"@
            &&& method@ == "GET"@ ==> path@ != "/report"@ && !"/monitor/"@.is_prefix_of(path@)
        },
{
    match route {
        Route::Monitor(id) => {
            submission::law_routes(method@, path@, id@);
        },
        _ => {
            submission::law_routes(method@, path@, Seq::empty());
            if method@ == "GET"@ && "/monitor/"@.is_prefix_of(path@) {
                let id = path@.skip("/monitor/"@.len() as int);
                assert(path@ =~= "/monitor/"@ + id);
                submission::law_routes(method@, path@, id);
            }
        },
    }
}

/// An upload starts with nothing received, for the lab, the identifier and the limit
/// that it is given, and its file is in the directory of the server under its
/// identifier.
pub proof fn law_upload_opened(
    s: Server,
    id: String,
    lab: RequestType,
    given: LabTaskStreamStatus,
    drawn: LabTaskStreamStatus,
)
    requires
        call_ensures(Server::open_upload, (&s, id, lab), given),
        call_ensures(Server::lab_task, (&s, lab), drawn),
    ensures
        given.request_id@ == id@,
        server::is_uuid(drawn.request_id@),
        forall|u: LabTaskStreamStatus|
            #![trigger u.status_code]
            u == given || u == drawn ==> {
                let path = u.tmp_file_path@;
                let n = s.tmp_file_dir@.len() as int;
                &&& u.content@.len() == 0
                &&& u.status_code == 0
                &&& u.lab == lab
                &&& u.upload_file_size_limit_bytes == s.upload_file_size_limit_bytes
                &&& path.len() == n + 1 + u.request_id@.len() + 7
                &&& path.take(n) == s.tmp_file_dir@
                &&& path[n] == '/'
                &&& path.subrange(n + 1, n + 1 + u.request_id@.len()) == u.request_id@
            },
{
    reveal_strlit("/");
    reveal_strlit(".tar.gz");
    submission::law_file_path(s.tmp_file_dir@, given@.request_id);
    submission::law_file_path(s.tmp_file_dir@, drawn@.request_id);
    assert forall|u: LabTaskStreamStatus|
        #![trigger u.status_code]
        u == given || u == drawn implies {
        let path = u.tmp_file_path@;
        let n = s.tmp_file_dir@.len() as int;
        &&& u.content@.len() == 0
        &&& u.status_code == 0
        &&& u.lab == lab
        &&& u.upload_file_size_limit_bytes == s.upload_file_size_limit_bytes
        &&& path.len() == n + 1 + u.request_id@.len() + 7
        &&& path.take(n) == s.tmp_file_dir@
        &&& path[n] == '/'
        &&& path.subrange(n + 1, n + 1 + u.request_id@.len()) == u.request_id@
    } by {
        assert(u@.content == u.content@);
        assert(u@.limit == u.upload_file_size_limit_bytes as nat);
    }
}

/// A monitor reads from its line what the response says.
pub proof fn law_line_for_monitor(response: RequestResponse, line: String)
    requires
        response.status is Processing || response.status is Completed
            ==> response.test_result is Some,
        call_ensures(Server::create_monitor_response, (response,), line),
    ensures
        match (response.status, answers::read_line(line@)) {
            (RequestStatus::Queued(q), Some(LineView::Queue(n))) => n == q,
            (RequestStatus::Processing, Some(LineView::Processing(r))) => {
                let t = response.test_result->0;
                &&& r.id == t.id@ && r.output == t.output@ && r.time_ms == t.time_ms
                &&& r.point == t.point && r.total == t.total && r.result_code == t.result_code
            },
            (RequestStatus::Completed, Some(LineView::Completed(r))) => {
                let t = response.test_result->0;
                &&& r.id == t.id@ && r.output == t.output@ && r.time_ms == t.time_ms
                &&& r.point == t.point && r.total == t.total && r.result_code == t.result_code
            },
            (RequestStatus::NotFound, Some(LineView::NotFound)) => true,
            _ => false,
        },
        line@.len() > 0 && line@.last() == '\n',
        forall|i: int| 0 <= i < line@.len() - 1 ==> #[trigger] line@[i] != '\n',
{
    answers::law_monitor_reads_line(response@);
    server::laws::law_monitor_answers_are_lines(response@);
    assert forall|i: int| 0 <= i < line@.len() - 1 implies #[trigger] line@[i] != '\n' by {
        assert(line@.drop_last()[i] != '\n');
    }
}

/// The methods of an upload change and tell what their names say.
pub proof fn law_upload_methods(
    u: LabTaskStreamStatus,
    status: u8,
    bytes: Vec<u8>,
    set: LabTaskStreamStatus,
    got: u8,
    pushed: LabTaskStreamStatus,
    phase: UploadPhase,
    request: RequestItem,
)
    requires
        call_ensures(LabTaskStreamStatus::set_status, (u, status), set),
        call_ensures(LabTaskStreamStatus::status, (&u,), got),
        call_ensures(LabTaskStreamStatus::push_content, (u, bytes), pushed),
        call_ensures(LabTaskStreamStatus::phase, (&u,), phase),
        call_ensures(LabTaskStreamStatus::request, (&u,), request),
    ensures
        set.status_code == status,
        set.content@ == u.content@ && set.request_id@ == u.request_id@ && set.tmp_file_path@
            == u.tmp_file_path@ && set.lab == u.lab && set.upload_file_size_limit_bytes
            == u.upload_file_size_limit_bytes,
        got == u.status_code,
        pushed.content@ == u.content@ + bytes@,
        pushed.status_code == u.status_code && pushed.request_id@ == u.request_id@
            && pushed.tmp_file_path@ == u.tmp_file_path@ && pushed.lab == u.lab
            && pushed.upload_file_size_limit_bytes == u.upload_file_size_limit_bytes,
        phase == UploadPhase::Ended <==> u.status_code == 2,
        phase == UploadPhase::Submit <==> u.status_code == 1,
        request.id@ == u.request_id@,
        request.req_type == u.lab,
        vstd::utf8::valid_utf8(request.body@),
        vstd::utf8::decode_utf8(request.body@) == u.tmp_file_path@,
{
    assert(set@.limit == set.upload_file_size_limit_bytes as nat);
    assert(pushed@.limit == pushed.upload_file_size_limit_bytes as nat);
    assert(u@.limit == u.upload_file_size_limit_bytes as nat);
    submission::law_request_of_upload(u@);
    assert(request@.body == request.body@);
}

/// The answer to an event of the body says what happened, and the upload goes on as
/// the event demands: with the chunk added while it stays within the limit.
pub proof fn law_body_event(
    u: LabTaskStreamStatus,
    event: BodyEvent,
    frame: String,
    next: LabTaskStreamStatus,
)
    requires
        call_ensures(upload::write_body_to_content, (u, event), (frame, next)),
    ensures
        next.request_id@ == u.request_id@,
        next.tmp_file_path@ == u.tmp_file_path@,
        next.lab == u.lab,
        next.upload_file_size_limit_bytes == u.upload_file_size_limit_bytes,
        match event {
            BodyEvent::Data(bytes) => {
                let limit = u.upload_file_size_limit_bytes;
                &&& next.content@ == u.content@ + bytes@
                &&& u.content@.len() + bytes@.len() <= limit ==> {
                    &&& next.status_code == 0
                    &&& answers::read_answer(frame@) == Some(AnswerView::Processing(bytes@.len()))
                }
                &&& u.content@.len() + bytes@.len() > limit ==> {
                    &&& next.status_code == 2
                    &&& answers::read_answer(frame@) == Some(
                        AnswerView::FileSizeExceeded(limit as nat),
                    )
                }
            },
            BodyEvent::NotData(what) => {
                &&& next.content@ == u.content@
                &&& next.status_code == 2
                &&& answers::read_answer(frame@) == Some(
                    AnswerView::ServerError("Failed to read body frame: "@ + what@),
                )
            },
            BodyEvent::Failed(why) => {
                &&& next.content@ == u.content@
                &&& next.status_code == 2
                &&& answers::read_answer(frame@) == Some(
                    AnswerView::ServerError("Failed to read body frame: "@ + why@),
                )
            },
            BodyEvent::End => {
                &&& next.content@ == u.content@
                &&& next.status_code == 1
                &&& answers::read_answer(frame@) == Some(AnswerView::FileUploadCompleted)
            },
        },
{
    answers::law_client_reads_progress(u@, event);
    submission::law_upload_step(u@, event);
    assert(u@.limit == u.upload_file_size_limit_bytes as nat);
    assert(next@.limit == next.upload_file_size_limit_bytes as nat);
    assert(next@.content == next.content@);
    assert(u@.content == u.content@);
}

/// A file that could not be saved: nothing is queued and nothing removed, the client
/// is told which file and why, and the upload has ended. A file that was saved: the
/// request of the upload is queued.
pub proof fn law_saving(
    u: LabTaskStreamStatus,
    saved: Result<(), FileError>,
    step: SaveStep,
    error: FileError,
    failed: UploadReply,
)
    requires
        call_ensures(LabTaskStreamStatus::file_saved, (u, saved), step),
        call_ensures(LabTaskStreamStatus::file_failed, (u, error), failed),
    ensures
        saved is Ok ==> {
            &&& step matches SaveStep::Enqueue(request, status)
            &&& request.id@ == u.request_id@
            &&& request.req_type == u.lab
            &&& vstd::utf8::decode_utf8(request.body@) == u.tmp_file_path@
            &&& status@ == u@
        },
        saved matches Err(why) ==> {
            &&& step matches SaveStep::Answer(reply)
            &&& answers::read_answer(reply.frame@) matches Some(AnswerView::ServerError(message))
            &&& tells_of_file(message, u.tmp_file_path@, why)
            &&& reply.status.status_code == 2
            &&& reply.cleanup is None
        },
        ({
            &&& answers::read_answer(failed.frame@) matches Some(AnswerView::ServerError(message))
            &&& tells_of_file(message, u.tmp_file_path@, error)
            &&& failed.status.status_code == 2
            &&& failed.cleanup is None
        }),
{
    submission::law_request_of_upload(u@);
    let path = u.tmp_file_path@;
    answers::law_client_reads_error(upload::file_error_message(path, error));
    answers::law_file_error_messages(path, error);
    if let Err(why) = saved {
        answers::law_client_reads_error(upload::file_error_message(path, why));
        answers::law_file_error_messages(path, why);
    }
}

/// Whether a message says which file could not be created or written, and why.
pub open spec fn tells_of_file(message: Seq<char>, path: Seq<char>, error: FileError) -> bool {
    match error {
        FileError::Create(why) => {
            &&& ("Failed to create temporary file "@ + path).is_prefix_of(message)
            &&& why@.is_suffix_of(message)
        },
        FileError::Write(why) => {
            &&& ("Failed to write to temporary file "@ + path).is_prefix_of(message)
            &&& why@.is_suffix_of(message)
        },
    }
}

/// A request that was taken in is answered with its identifier and its file stays; a
/// request that was refused is answered so and its file is removed. Either way the
/// upload has ended.
pub proof fn law_reply_of_queue(
    u: LabTaskStreamStatus,
    reply: Result<String, ()>,
    r: UploadReply,
)
    requires
        server::is_uuid(u.request_id@),
        call_ensures(LabTaskStreamStatus::queue_replied, (u, reply), r),
    ensures
        r.status.status_code == 2,
        reply is Ok ==> {
            &&& answers::read_answer(r.frame@) == Some(AnswerView::Accepted(u.request_id@))
            &&& r.cleanup is None
        },
        reply is Err ==> {
            &&& answers::read_answer(r.frame@) == Some(AnswerView::TooManyRequests)
            &&& r.cleanup matches Some(file) && file@ == u.tmp_file_path@
        },
{
    answers::law_client_reads_reply(u.request_id@);
}

/// A worker keeps the settings that it is given.
pub proof fn law_worker_settings(
    id: usize,
    time_limit_ms: u64,
    lab_command: Table<Vec<String>>,
    made: Worker,
)
    requires
        call_ensures(Worker::new, (id, time_limit_ms, lab_command), made),
    ensures
        made.id == id,
        made.time_limit_ms == time_limit_ms,
        made.lab_command@ == lab_command@,
{
}

/// Whether a task runs a command line of the configuration on a file.
pub open spec fn runs(task: TestTask, line: Seq<String>, path: Seq<char>) -> bool {
    &&& task.command@ == line[0]@
    &&& task.args@.len() == line.len() - 1
    &&& forall|i: int|
        #![trigger task.args@[i]]
        0 <= i < task.args@.len() ==> {
            &&& line[i + 1]@ == "$FILE"@ ==> task.args@[i]@ == path
            &&& line[i + 1]@ != "$FILE"@ ==> task.args@[i]@ == line[i + 1]@
        }
    &&& task.cleanup matches Some(file) && file@ == path
}

/// Whether a task says that there is nothing to run.
pub open spec fn says(task: TestTask, message: Seq<char>) -> bool {
    &&& task.command@ == "echo"@
    &&& task.args@.len() == 1
    &&& task.args@[0]@ == message
    &&& task.cleanup is None
}

/// What a worker runs for a request: the command line that the configuration has for
/// its lab, on the file whose path is the body of the request.
pub proof fn law_task_for_request(w: Worker, request: RequestItem, task: TestTask)
    requires
        vstd::utf8::valid_utf8(request.body@),
        call_ensures(Worker::poll, (&w, request), task),
    ensures
        task.request_id@ == request.id@,
        match table::lookup(
            w.lab_command@,
            match request.req_type {
                RequestType::Lab1 => "Lab1"@,
                RequestType::Lab2 => "Lab2"@,
                RequestType::Lab3 => "Lab3"@,
            },
        ) {
            Some(line) => if line@.len() > 0 {
                runs(task, line@, vstd::utf8::decode_utf8(request.body@))
            } else {
                says(task, "Empty command for lab."@)
            },
            None => says(task, "Unknown lab command."@),
        },
{
    let path = text::text_of(request.body@);
    submission::law_task(w, task, request.id@, request.req_type, path);
}

/// What a worker runs for a request of a lab, when the file is at a given path.
pub proof fn law_task_for_file(
    w: Worker,
    id: String,
    lab: RequestType,
    path: String,
    task: TestTask,
)
    requires
        call_ensures(Worker::task, (&w, id, lab, path), task),
    ensures
        task.request_id@ == id@,
        match table::lookup(
            w.lab_command@,
            match lab {
                RequestType::Lab1 => "Lab1"@,
                RequestType::Lab2 => "Lab2"@,
                RequestType::Lab3 => "Lab3"@,
            },
        ) {
            Some(line) => if line@.len() > 0 {
                runs(task, line@, path@)
            } else {
                says(task, "Empty command for lab."@)
            },
            None => says(task, "Unknown lab command."@),
        },
{
    submission::law_task(w, task, id@, lab, path@);
}

/// What a worker does about an event of a run, and what it reports at the end of a run
/// that the event ends.
pub proof fn law_event_of_run(
    id: String,
    event: RunEvent,
    step: RunStep,
    start: ClockReading,
    end: ClockReading,
    last: TestResult,
)
    requires
        start.in_range(),
        end.in_range(),
        call_ensures(Worker::run_test, (&id, event), step),
        step matches RunStep::Kill(outcome) ==> call_ensures(
            Worker::run_test_with_timeout,
            (id, outcome, start, end),
            last,
        ),
        step matches RunStep::Finish(outcome) ==> call_ensures(
            Worker::run_test_with_timeout,
            (id, outcome, start, end),
            last,
        ),
    ensures
        match (event, step) {
            (RunEvent::Line(line), RunStep::Report(r)) => {
                &&& r.id@ == id@
                &&& r.output@ == line@
                &&& r.result_code == ResultCode::Processing
                &&& r.time_ms == 0 && r.point == 0 && r.total == 0
            },
            (RunEvent::CancelSignal, RunStep::Kill(_)) => last.result_code == ResultCode::Canceled
                && last.output@ == "Canceled"@,
            (RunEvent::TimedOut, RunStep::Kill(_)) => last.result_code
                == ResultCode::TimeLimitExceeded && last.output@
                == "TimeLimitExceeded: Your test exceeded the time limit."@,
            (RunEvent::EndOfOutput, RunStep::Finish(_)) => last.result_code
                == ResultCode::Completed && last.output@ == "Completed"@,
            (RunEvent::ReportRefused, RunStep::Finish(_)) => last.result_code
                == ResultCode::Completed && last.output@ == "Completed"@,
            (RunEvent::ReadFailed(why), RunStep::Finish(_)) => last.result_code
                == ResultCode::RuntimeError && last.output@ == "Error reading output: "@ + why@,
            (RunEvent::SpawnFailed(why), RunStep::Finish(_)) => last.result_code
                == ResultCode::ServerError && last.output@ == "Failed to spawn process: "@ + why@,
            _ => false,
        },
        !(event is Line) ==> {
            let passed = (end.secs - start.secs) * 1_000_000_000 + end.nanos - start.nanos;
            &&& last.id@ == id@
            &&& last.point == 0 && last.total == 0
            &&& passed >= 0 ==> last.time_ms * 1_000_000 <= passed < (last.time_ms + 1) * 1_000_000
        },
{
    let duration = worker::duration_of(start, end);
    submission::law_steps(id@, event, duration);
    submission::law_duration_of_run(start, end);
    match step {
        RunStep::Report(r) => {},
        RunStep::Kill(outcome) => {
            submission::law_conclusion(id@, outcome@, duration);
            assert(last@ == worker::conclusion(id@, outcome@, duration));
        },
        RunStep::Finish(outcome) => {
            submission::law_conclusion(id@, outcome@, duration);
            assert(last@ == worker::conclusion(id@, outcome@, duration));
        },
    }
}

/// The last report of a run carries the message of a failed run as it is, and its
/// result code says how the run ended.
pub proof fn law_last_report_of_run(
    id: String,
    outcome: RunOutcome,
    start: ClockReading,
    end: ClockReading,
    last: TestResult,
)
    requires
        start.in_range(),
        end.in_range(),
        call_ensures(Worker::run_test_with_timeout, (id, outcome, start, end), last),
    ensures
        last.id@ == id@,
        match outcome {
            RunOutcome::Done => last.result_code == ResultCode::Completed,
            RunOutcome::Canceled => last.result_code == ResultCode::Canceled,
            RunOutcome::TimedOut => last.result_code == ResultCode::TimeLimitExceeded,
            RunOutcome::ReadFailed(message) => last.result_code == ResultCode::RuntimeError
                && last.output@ == message@,
            RunOutcome::SpawnFailed(message) => last.result_code == ResultCode::ServerError
                && last.output@ == message@,
        },
{
    let duration = worker::duration_of(start, end);
    assert(last@ == worker::conclusion(id@, outcome@, duration));
}

/// The reports say what they are made for.
pub proof fn law_reports(
    id: String,
    output: String,
    duration: u64,
    line: TestResult,
    late: TestResult,
    complete: TestResult,
    canceled: TestResult,
    broken: TestResult,
    refused: TestResult,
)
    requires
        call_ensures(worker::processing_result, (id, output), line),
        call_ensures(worker::tle_result, (id, duration), late),
        call_ensures(worker::completed_result, (id, duration), complete),
        call_ensures(worker::canceled_result, (id, duration), canceled),
        call_ensures(worker::runtime_error_result, (id, duration, output), broken),
        call_ensures(worker::server_error_result, (id, duration, output), refused),
    ensures
        line.id@ == id@ && late.id@ == id@ && complete.id@ == id@ && canceled.id@ == id@
            && broken.id@ == id@ && refused.id@ == id@,
        line.output@ == output@ && broken.output@ == output@ && refused.output@ == output@,
        late.output@ == "TimeLimitExceeded: Your test exceeded the time limit."@,
        complete.output@ == "Completed"@,
        canceled.output@ == "Canceled"@,
        line.time_ms == 0 && late.time_ms == duration && complete.time_ms == duration
            && canceled.time_ms == duration && broken.time_ms == duration && refused.time_ms
            == duration,
        line.result_code == ResultCode::Processing,
        late.result_code == ResultCode::TimeLimitExceeded,
        complete.result_code == ResultCode::Completed,
        canceled.result_code == ResultCode::Canceled,
        broken.result_code == ResultCode::RuntimeError,
        refused.result_code == ResultCode::ServerError,
        line.point == 0 && line.total == 0,
        late.point == 0 && late.total == 0,
        complete.point == 0 && complete.total == 0,
        canceled.point == 0 && canceled.total == 0,
        broken.point == 0 && broken.total == 0,
        refused.point == 0 && refused.total == 0,
{
    assert(line@.id == id@ && late@.id == id@ && complete@.id == id@ && canceled@.id == id@
        && broken@.id == id@ && refused@.id == id@);
}

/// A report that is written as text reads as that report, and the names of labs and
/// result codes are what they are called.
pub proof fn law_written_report(
    r: TestResult,
    s: String,
    lab: RequestType,
    lab_name: String,
    code: ResultCode,
    code_name: String,
)
    requires
        call_ensures(worker::report_text, (&r,), s),
        call_ensures(RequestType::name, (&lab,), lab_name),
        call_ensures(ResultCode::name, (&code,), code_name),
    ensures
        answers::read_report(s@) matches Some((t, rest)) && {
            &&& t.id == r.id@ && t.output == r.output@ && t.time_ms == r.time_ms
            &&& t.point == r.point && t.total == r.total && t.result_code == r.result_code
            &&& rest.len() == 0
        },
        lab_name@ == match lab {
            RequestType::Lab1 => "Lab1"@,
            RequestType::Lab2 => "Lab2"@,
            RequestType::Lab3 => "Lab3"@,
        },
        code_name@ == match code {
            ResultCode::Processing => "Processing"@,
            ResultCode::Completed => "Completed"@,
            ResultCode::Canceled => "Canceled"@,
            ResultCode::TimeLimitExceeded => "TimeLimitExceeded"@,
            ResultCode::RuntimeError => "RuntimeError"@,
            ResultCode::ServerError => "ServerError"@,
        },
{
    answers::law_report_reads_back(r@, Seq::empty());
    assert(s@ + Seq::<char>::empty() =~= s@);
}

/// The places of a table: a new table has none; a key is at the place of the first
/// entry that has it; the oldest entry is the first.
pub proof fn law_table_places<V>(
    fresh: Table<V>,
    t: Table<V>,
    n: usize,
    key: String,
    at: Option<usize>,
    i: usize,
    found: &String,
)
    requires
        call_ensures(Table::<V>::new, (), fresh),
        call_ensures(Table::<V>::len, (&t,), n),
        call_ensures(Table::<V>::position, (&t, &key), at),
        i < t@.len(),
        call_ensures(Table::<V>::key_at, (&t, i), found),
    ensures
        fresh@.len() == 0,
        n == t@.len(),
        found@ == t@[i as int].0,
        match at {
            Some(p) => p < n && t@[p as int].0 == key@ && forall|j: int|
                0 <= j < p ==> (#[trigger] t@[j]).0 != key@,
            None => forall|j: int| 0 <= j < n ==> (#[trigger] t@[j]).0 != key@,
        },
{
    table::lemma_find(t@, key@);
}

/// Taking the oldest entry out gives the first entry and leaves the others in order.
pub proof fn law_table_oldest<V>(t: &mut Table<V>, e: table::Entry<V>)
    requires
        old(t)@.len() > 0,
        call_ensures(Table::<V>::take_first, (t,), e),
    ensures
        seq![(e.key@, e.value)] + final(t)@ == old(t)@,
{
    assert(seq![(e.key@, e.value)] + final(t)@ =~= old(t)@);
}

} // verus!
