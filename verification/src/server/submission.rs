//! What becomes of a submission: where it goes, how its file is received and saved,
//! what the queue gets, what a worker runs for it and how the run ends.

use vstd::prelude::*;

use crate::server;
use crate::server::laws;
use crate::server::queue::RequestType;
use crate::server::upload::{BodyEvent, UploadPhase, UploadView};
use crate::server::worker;
use crate::server::worker::{
    ClockReading, ResultCode, RunEvent, RunOutcomeView, RunStepView, TestTask, Worker,
};
use crate::server::RouteView;
use crate::table;
use crate::text;

verus! {

/// Each lab has its own path, and each path under `/monitor/` is that of the
/// identifier behind it; everything else leads nowhere.
pub proof fn law_routes(method: Seq<char>, path: Seq<char>, id: Seq<char>)
    ensures
        server::route_of(method, path) == RouteView::Lab(RequestType::Lab1) <==> method == "POST"@
            && path == "/test/lab1"@,
        server::route_of(method, path) == RouteView::Lab(RequestType::Lab2) <==> method == "POST"@
            && path == "/test/lab2"@,
        server::route_of(method, path) == RouteView::Lab(RequestType::Lab3) <==> method == "POST"@
            && path == "/test/lab3"@,
        server::route_of(method, path) == RouteView::Report <==> method == "GET"@ && path
            == "/report"@,
        server::route_of(method, path) == RouteView::Monitor(id) <==> method == "GET"@ && path
            == "/monitor/"@ + id,
{
    reveal_strlit("POST");
    reveal_strlit("GET");
    reveal_strlit("/test/lab1");
    reveal_strlit("/test/lab2");
    reveal_strlit("/test/lab3");
    reveal_strlit("/report");
    reveal_strlit("/monitor/");
    assert("POST"@.len() != "GET"@.len());
    assert("/test/lab1"@[9] == '1' && "/test/lab2"@[9] == '2' && "/test/lab3"@[9] == '3');
    assert("/report"@.len() < "/monitor/"@.len());
    if method == "GET"@ && "/monitor/"@.is_prefix_of(path) {
        assert(path =~= "/monitor/"@ + path.skip("/monitor/"@.len() as int));
    }
    if path == "/monitor/"@ + id {
        assert("/monitor/"@.is_prefix_of(path));
        assert(path.skip("/monitor/"@.len() as int) =~= id);
    }
}

/// A submission to the path of a lab is one for the lab of that number: the name of
/// the lab in the configuration ends with what the path ends with.
pub proof fn law_lab_of_path(lab: RequestType)
    ensures
        lab.spec_name().len() == 4,
        lab.spec_name().take(3) == "Lab"@,
        server::route_of("POST"@, "/test/lab"@ + lab.spec_name().skip(3)) == RouteView::Lab(lab),
{
    reveal_strlit("Lab");
    reveal_strlit("Lab1");
    reveal_strlit("Lab2");
    reveal_strlit("Lab3");
    reveal_strlit("/test/lab");
    reveal_strlit("/test/lab1");
    reveal_strlit("/test/lab2");
    reveal_strlit("/test/lab3");
    assert(lab.spec_name().take(3) =~= "Lab"@);
    let path = "/test/lab"@ + lab.spec_name().skip(3);
    match lab {
        RequestType::Lab1 => {
            assert(path =~= "/test/lab1"@);
        },
        RequestType::Lab2 => {
            assert(path =~= "/test/lab2"@);
        },
        RequestType::Lab3 => {
            assert(path =~= "/test/lab3"@);
        },
    }
    law_routes("POST"@, path, Seq::empty());
}

/// The file of an upload is saved in the directory of the server, under the
/// identifier of the request.
pub proof fn law_file_path(dir: Seq<char>, id: Seq<char>)
    ensures
        ({
            let path = server::tmp_file_path(dir, id);
            let n = dir.len() as int;
            let k = n + 1 + id.len();
            &&& path.take(n) == dir
            &&& path[n] == '/'
            &&& path.subrange(n + 1, k) == id
            &&& path.skip(k) == seq!['.', 't', 'a', 'r', '.', 'g', 'z']
        }),
{
    reveal_strlit("/");
    reveal_strlit(".tar.gz");
    let path = server::tmp_file_path(dir, id);
    let n = dir.len() as int;
    let k = n + 1 + id.len();
    assert(path.take(n) =~= dir);
    assert(path.subrange(n + 1, k) =~= id);
    assert(path.skip(k) =~= seq!['.', 't', 'a', 'r', '.', 'g', 'z']);
}

/// What an event of the body does to an upload: a chunk is added behind what was
/// received and no other event changes what was received; the identifier, the path,
/// the lab and the limit stay. The upload goes on with a chunk within the limit, is
/// to be submitted at the end of the body, and has ended otherwise.
pub proof fn law_upload_step(u: UploadView, event: BodyEvent)
    ensures
        ({
            let after = u.after(event);
            &&& after.request_id == u.request_id
            &&& after.tmp_file_path == u.tmp_file_path
            &&& after.lab == u.lab
            &&& after.limit == u.limit
            &&& match event {
                BodyEvent::Data(bytes) => {
                    &&& after.content == u.content + bytes@
                    &&& after.content.len() <= u.limit ==> after.phase() == UploadPhase::Receive
                    &&& after.content.len() > u.limit ==> after.phase() == UploadPhase::Ended
                },
                BodyEvent::NotData(_) => {
                    &&& after.content == u.content
                    &&& after.phase() == UploadPhase::Ended
                },
                BodyEvent::Failed(_) => {
                    &&& after.content == u.content
                    &&& after.phase() == UploadPhase::Ended
                },
                BodyEvent::End => {
                    &&& after.content == u.content
                    &&& after.phase() == UploadPhase::Submit
                },
            }
        }),
{
}

/// Setting the status of an upload changes the status alone; the status decides what
/// is done next.
pub proof fn law_status(u: UploadView, status: u8)
    ensures
        u.with_status(status).status_code == status,
        u.with_status(status).content == u.content,
        u.with_status(status).request_id == u.request_id,
        u.with_status(status).tmp_file_path == u.tmp_file_path,
        u.with_status(status).lab == u.lab,
        u.with_status(status).limit == u.limit,
        u.phase() == UploadPhase::Ended <==> u.status_code == 2,
        u.phase() == UploadPhase::Submit <==> u.status_code == 1,
{
}

/// Adding data to an upload changes what was received alone.
pub proof fn law_data(u: UploadView, bytes: Seq<u8>)
    ensures
        u.with_data(bytes).content == u.content + bytes,
        u.with_data(bytes).status_code == u.status_code,
        u.with_data(bytes).request_id == u.request_id,
        u.with_data(bytes).tmp_file_path == u.tmp_file_path,
        u.with_data(bytes).lab == u.lab,
        u.with_data(bytes).limit == u.limit,
{
}

/// The request that an upload gives carries the identifier and the lab of the upload,
/// and the path of its file.
pub proof fn law_request_of_upload(u: UploadView)
    ensures
        u.request().id == u.request_id,
        u.request().req_type == u.lab,
        text::text_of(u.request().body) == u.tmp_file_path,
        vstd::utf8::valid_utf8(u.request().body),
        vstd::utf8::decode_utf8(u.request().body) == u.tmp_file_path,
{
    vstd::utf8::encode_utf8_valid_utf8(u.tmp_file_path);
    vstd::utf8::encode_utf8_decode_utf8(u.tmp_file_path);
}

/// A submission that is received as a whole within the limit is submitted: what is
/// saved is the chunks of its body, one behind the other, and the request that goes
/// to the queue is for the lab that it was posted to, under the identifier that it
/// was given, with the path of its file.
pub proof fn law_whole_submission(
    method: Seq<char>,
    path: Seq<char>,
    lab: RequestType,
    u: UploadView,
    chunks: Seq<Vec<u8>>,
)
    requires
        server::route_of(method, path) == RouteView::Lab(lab),
        u.lab == lab,
        u.status_code == 0,
        u.content.len() == 0,
        laws::joined(chunks).len() <= u.limit,
    ensures
        ({
            let complete = laws::after_all(u, laws::chunk_events(chunks).push(BodyEvent::End));
            &&& complete.phase() == UploadPhase::Submit
            &&& complete.content == laws::joined(chunks)
            &&& complete.request().id == u.request_id
            &&& text::text_of(complete.request().body) == u.tmp_file_path
            &&& complete.request().req_type == RequestType::Lab1 <==> path == "/test/lab1"@
            &&& complete.request().req_type == RequestType::Lab2 <==> path == "/test/lab2"@
            &&& complete.request().req_type == RequestType::Lab3 <==> path == "/test/lab3"@
        }),
{
    let events = laws::chunk_events(chunks).push(BodyEvent::End);
    let complete = laws::after_all(u, events);
    assert(events.drop_last() =~= laws::chunk_events(chunks));
    laws::law_content(u, chunks);
    assert(u.content + laws::joined(chunks) =~= laws::joined(chunks));
    law_request_of_upload(complete);
    law_routes(method, path, Seq::empty());
}

/// Each argument is decided by itself, wherever it stands: one that is `$FILE` becomes
/// the path, every other one stays.
pub proof fn law_arguments(args: Seq<Seq<char>>, path: Seq<char>)
    ensures
        worker::with_file(args, path).len() == args.len(),
        forall|i: int|
            #![trigger worker::with_file(args, path)[i]]
            0 <= i < args.len() ==> {
                &&& args[i] == "$FILE"@ ==> worker::with_file(args, path)[i] == path
                &&& args[i] != "$FILE"@ ==> worker::with_file(args, path)[i] == args[i]
            },
        path != "$FILE"@ ==> !worker::with_file(args, path).contains("$FILE"@),
{
}

/// What a worker runs for a request is decided by the command line that the
/// configuration has under the name of its lab: its first word is the command, and
/// of the words behind it each that is `$FILE` becomes the path of the uploaded file,
/// which is removed at the end. If there is no command line, or an empty one, an
/// `echo` says so, and the file stays.
pub proof fn law_task(
    w: Worker,
    task: TestTask,
    request_id: Seq<char>,
    lab: RequestType,
    path: Seq<char>,
)
    requires
        w.is_task(task, request_id, lab, path),
    ensures
        ({
            let name = match lab {
                RequestType::Lab1 => "Lab1"@,
                RequestType::Lab2 => "Lab2"@,
                RequestType::Lab3 => "Lab3"@,
            };
            let args = task.args@;
            &&& task.request_id@ == request_id
            &&& match table::lookup(w.lab_command@, name) {
                Some(line) => if line@.len() > 0 {
                    &&& task.command@ == line@[0]@
                    &&& args.len() == line@.len() - 1
                    &&& forall|i: int|
                        0 <= i < args.len() ==> (#[trigger] args[i])@ == if line@[i + 1]@
                            == "$FILE"@ {
                            path
                        } else {
                            line@[i + 1]@
                        }
                    &&& task.cleanup matches Some(file) && file@ == path
                } else {
                    &&& task.command@ == "echo"@
                    &&& args.len() == 1 && args[0]@ == "Empty command for lab."@
                    &&& task.cleanup is None
                },
                None => {
                    &&& task.command@ == "echo"@
                    &&& args.len() == 1 && args[0]@ == "Unknown lab command."@
                    &&& task.cleanup is None
                },
            }
        }),
{
    let args = task.args@;
    let words = text::texts(args);
    match w.command_line(lab) {
        None => {
            assert(words.len() == 1);
            assert(words[0] == args[0]@);
        },
        Some(line) => if line.len() == 0 {
            assert(words.len() == 1);
            assert(words[0] == args[0]@);
        } else {
            let given = worker::with_file(line.drop_first(), path);
            assert(words.len() == given.len());
            assert forall|i: int| 0 <= i < args.len() implies (#[trigger] args[i])@ == if line[i
                + 1] == "$FILE"@ {
                path
            } else {
                line[i + 1]
            } by {
                assert(words[i] == given[i]);
            }
        },
    }
}

/// What a worker does about each event of a run: a line is reported as it is, under
/// the identifier of the request; a cancel signal and the time limit kill the
/// command; every other event ends the run. The last report says how the run ended.
pub proof fn law_steps(id: Seq<char>, event: RunEvent, duration: u64)
    ensures
        match (event, worker::step_of(id, event)) {
            (RunEvent::Line(line), RunStepView::Report(r)) => {
                &&& r.id == id
                &&& r.output == line@
                &&& r.result_code == ResultCode::Processing
                &&& r.time_ms == 0 && r.point == 0 && r.total == 0
            },
            (RunEvent::CancelSignal, RunStepView::Kill(o)) => {
                let r = worker::conclusion(id, o, duration);
                r.result_code == ResultCode::Canceled && r.output == "Canceled"@
            },
            (RunEvent::TimedOut, RunStepView::Kill(o)) => {
                let r = worker::conclusion(id, o, duration);
                r.result_code == ResultCode::TimeLimitExceeded && r.output
                    == "TimeLimitExceeded: Your test exceeded the time limit."@
            },
            (RunEvent::EndOfOutput, RunStepView::Finish(o)) => {
                let r = worker::conclusion(id, o, duration);
                r.result_code == ResultCode::Completed && r.output == "Completed"@
            },
            (RunEvent::ReportRefused, RunStepView::Finish(o)) => {
                let r = worker::conclusion(id, o, duration);
                r.result_code == ResultCode::Completed && r.output == "Completed"@
            },
            (RunEvent::ReadFailed(why), RunStepView::Finish(o)) => {
                let r = worker::conclusion(id, o, duration);
                r.result_code == ResultCode::RuntimeError && r.output == "Error reading output: "@
                    + why@
            },
            (RunEvent::SpawnFailed(why), RunStepView::Finish(o)) => {
                let r = worker::conclusion(id, o, duration);
                r.result_code == ResultCode::ServerError && r.output
                    == "Failed to spawn process: "@ + why@
            },
            _ => false,
        },
{
}

/// The last report of a run is that of its request, without points, and says how
/// long it ran and how it ended; runs that ended otherwise are told apart.
pub proof fn law_conclusion(id: Seq<char>, outcome: RunOutcomeView, duration: u64)
    ensures
        ({
            let r = worker::conclusion(id, outcome, duration);
            &&& r.id == id
            &&& r.point == 0
            &&& r.total == 0
            &&& r.time_ms == duration
            &&& r.result_code == ResultCode::Completed <==> outcome is Done
            &&& r.result_code == ResultCode::Canceled <==> outcome is Canceled
            &&& r.result_code == ResultCode::TimeLimitExceeded <==> outcome is TimedOut
            &&& r.result_code == ResultCode::RuntimeError <==> outcome is ReadFailed
            &&& r.result_code == ResultCode::ServerError <==> outcome is SpawnFailed
            &&& outcome matches RunOutcomeView::ReadFailed(message) ==> r.output == message
            &&& outcome matches RunOutcomeView::SpawnFailed(message) ==> r.output == message
        }),
{
}

/// The reported duration is the time between the two readings of the clock in whole
/// milliseconds: it is the largest number of milliseconds that fits between them. A
/// clock that was set back gives the same number, counted down from 2^64.
pub proof fn law_duration_of_run(start: ClockReading, end: ClockReading)
    requires
        start.in_range(),
        end.in_range(),
    ensures
        ({
            let passed = (end.secs - start.secs) * 1_000_000_000 + end.nanos - start.nanos;
            let ms = worker::duration_of(start, end);
            &&& passed >= 0 ==> ms * 1_000_000 <= passed < (ms + 1) * 1_000_000
            &&& -1_000_000 < passed < 0 ==> ms == 0
            &&& passed <= -1_000_000 ==> {
                let back = 0x1_0000_0000_0000_0000 - ms;
                back * 1_000_000 <= -passed < (back + 1) * 1_000_000
            }
        }),
{
    let passed = (end.secs - start.secs) * 1_000_000_000 + end.nanos - start.nanos;
    assert(end.total_nanos() - start.total_nanos() == passed);
    let ms = worker::whole_millis(passed);
    assert(-0x1_0000_0000_0000_0000 < ms < 0x1_0000_0000_0000_0000);
    assert(ms < 0 ==> ms % 0x1_0000_0000_0000_0000 == ms + 0x1_0000_0000_0000_0000);
}

/// Two runs one behind the other take together what they take, but for the parts of
/// milliseconds that are rounded off.
pub proof fn law_durations_add_up(start: ClockReading, middle: ClockReading, end: ClockReading)
    requires
        start.in_range(),
        middle.in_range(),
        end.in_range(),
        start.total_nanos() <= middle.total_nanos() <= end.total_nanos(),
    ensures
        ({
            let both = worker::duration_of(start, middle) + worker::duration_of(middle, end);
            both <= worker::duration_of(start, end) <= both + 1
        }),
{
    law_duration_of_run(start, middle);
    law_duration_of_run(middle, end);
    law_duration_of_run(start, end);
}

} // verus!
