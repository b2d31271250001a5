//! What a client reads from the answers of the server: readers of the lines for
//! monitors and of the answers to uploads, and that they read what was meant.

use vstd::prelude::*;

use crate::server;
use crate::server::model::ResponseView;
use crate::server::queue::RequestStatus;
use crate::server::upload;
use crate::server::upload::{BodyEvent, FileError, UploadView};
use crate::server::worker;
use crate::server::worker::{ResultCode, TestResultView};
use crate::text;

verus! {

/// What a monitor reads from a line.
pub enum LineView {
    /// The request waits at this position
    Queue(nat),
    /// The test runs, with a report
    Processing(TestResultView),
    /// The test has ended, with a report
    Completed(TestResultView),
    /// There is no such request
    NotFound,
}

/// What a client that uploads a file reads from an answer.
pub enum AnswerView {
    /// A chunk of this size was received
    Processing(nat),
    /// More than this was received
    FileSizeExceeded(nat),
    /// The body is complete
    FileUploadCompleted,
    /// The request was taken in under this identifier
    Accepted(Seq<char>),
    /// Too many requests wait
    TooManyRequests,
    /// An error occurred, which the text describes
    ServerError(Seq<char>),
}

/// What stands behind a given front of a text.
pub open spec fn behind(front: Seq<char>, s: Seq<char>) -> Option<Seq<char>> {
    if front.is_prefix_of(s) {
        Some(s.skip(front.len() as int))
    } else {
        None
    }
}

/// The JSON string behind a given front of a text, and what stands behind it.
pub open spec fn string_behind(front: Seq<char>, s: Seq<char>) -> Option<(Seq<char>, Seq<char>)> {
    match behind(front, s) {
        Some(rest) => text::read_json(rest),
        None => None,
    }
}

/// The number behind a given front of a text, and what stands behind it.
pub open spec fn number_behind(front: Seq<char>, s: Seq<char>) -> Option<(nat, Seq<char>)> {
    match behind(front, s) {
        Some(rest) => Some(text::read_number(0, rest)),
        None => None,
    }
}

/// The result code that has a name.
pub open spec fn code_named(name: Seq<char>) -> Option<ResultCode> {
    if name == "Processing"@ {
        Some(ResultCode::Processing)
    } else if name == "Completed"@ {
        Some(ResultCode::Completed)
    } else if name == "Canceled"@ {
        Some(ResultCode::Canceled)
    } else if name == "TimeLimitExceeded"@ {
        Some(ResultCode::TimeLimitExceeded)
    } else if name == "RuntimeError"@ {
        Some(ResultCode::RuntimeError)
    } else if name == "ServerError"@ {
        Some(ResultCode::ServerError)
    } else {
        None
    }
}

/// Reads a report from the front of a text: the report, and what stands behind it.
pub open spec fn read_report(s: Seq<char>) -> Option<(TestResultView, Seq<char>)> {
    match string_behind("{\"id\":"@, s) {
        None => None,
        Some((id, s)) => match number_behind(",\"point\":"@, s) {
            None => None,
            Some((point, s)) => match number_behind(",\"total\":"@, s) {
                None => None,
                Some((total, s)) => match string_behind(",\"output\":"@, s) {
                    None => None,
                    Some((output, s)) => match number_behind(",\"time_ms\":"@, s) {
                        None => None,
                        Some((time_ms, s)) => match string_behind(",\"result_code\":"@, s) {
                            None => None,
                            Some((name, s)) => match (code_named(name), behind("}"@, s)) {
                                (Some(result_code), Some(rest)) => Some(
                                    (
                                        TestResultView {
                                            id,
                                            point: point as u32,
                                            total: total as u32,
                                            output,
                                            time_ms: time_ms as u64,
                                            result_code,
                                        },
                                        rest,
                                    ),
                                ),
                                _ => None,
                            },
                        },
                    },
                },
            },
        },
    }
}

/// Reads a line for a monitor.
pub open spec fn read_line(s: Seq<char>) -> Option<LineView> {
    if let Some((position, rest)) = number_behind("{\"status\": \"QUEUE\", \"position\": "@, s) {
        if rest == "}\n"@ {
            Some(LineView::Queue(position))
        } else {
            None
        }
    } else if let Some(rest) = behind("{\"status\": \"PROCESSING\", \"result\": "@, s) {
        match read_report(rest) {
            Some((r, rest)) => if rest == "}\n"@ {
                Some(LineView::Processing(r))
            } else {
                None
            },
            None => None,
        }
    } else if let Some(rest) = behind("{\"status\": \"COMPLETED\", \"result\": "@, s) {
        match read_report(rest) {
            Some((r, rest)) => if rest == "}\n"@ {
                Some(LineView::Completed(r))
            } else {
                None
            },
            None => None,
        }
    } else if s == "{\"status\": \"NOTFOUND\"}\n"@ {
        Some(LineView::NotFound)
    } else {
        None
    }
}

proof fn lemma_behind(front: Seq<char>, rest: Seq<char>)
    ensures
        behind(front, front + rest) == Some(rest),
{
    assert(front.is_prefix_of(front + rest));
    assert((front + rest).skip(front.len() as int) =~= rest);
}

proof fn lemma_string_behind(front: Seq<char>, value: Seq<char>, rest: Seq<char>)
    ensures
        string_behind(front, front + (text::json_quoted(value) + rest)) == Some((value, rest)),
{
    lemma_behind(front, text::json_quoted(value) + rest);
    text::law_json_reads_back(value, rest);
}

proof fn lemma_number_behind(front: Seq<char>, value: nat, rest: Seq<char>)
    requires
        rest.len() > 0,
        !('0' <= rest[0] <= '9'),
    ensures
        number_behind(front, front + (text::decimal(value) + rest)) == Some((value, rest)),
{
    lemma_behind(front, text::decimal(value) + rest);
    text::law_decimal_reads_back(value, rest);
}

/// The names of the result codes are what the codes are called, and are not the same.
pub proof fn law_code_names(code: ResultCode)
    ensures
        code_named(code.spec_name()) == Some(code),
{
    reveal_strlit("Processing");
    reveal_strlit("Completed");
    reveal_strlit("Canceled");
    reveal_strlit("TimeLimitExceeded");
    reveal_strlit("RuntimeError");
    reveal_strlit("ServerError");
    assert("Processing"@[0] != "Completed"@[0]);
    assert("Processing"@[0] != "Canceled"@[0]);
    assert("Completed"@[1] != "Canceled"@[1]);
    assert("TimeLimitExceeded"@[0] == 'T');
    assert("RuntimeError"@[0] == 'R');
    assert("ServerError"@[0] == 'S');
    assert("Processing"@[0] == 'P');
    assert("Completed"@[0] == 'C');
    assert("Canceled"@[0] == 'C');
}

/// The name of a result code stands in a JSON string as it is.
proof fn lemma_plain_name(code: ResultCode)
    ensures
        text::json_quoted(code.spec_name()) == seq!['"'] + code.spec_name() + seq!['"'],
{
    reveal_strlit("Processing");
    reveal_strlit("Completed");
    reveal_strlit("Canceled");
    reveal_strlit("TimeLimitExceeded");
    reveal_strlit("RuntimeError");
    reveal_strlit("ServerError");
    text::law_plain_json(code.spec_name());
}

/// The pieces of a report, from its front.
proof fn lemma_report_pieces(r: TestResultView, rest: Seq<char>)
    ensures
        worker::report_json(r) + rest == report_front(r, rest),
{
    let f1 = "{\"id\":"@;
    let f2 = f1 + text::json_quoted(r.id);
    let f3 = f2 + ",\"point\":"@;
    let f4 = f3 + text::decimal(r.point as nat);
    let f5 = f4 + ",\"total\":"@;
    let f6 = f5 + text::decimal(r.total as nat);
    let f7 = f6 + ",\"output\":"@;
    let f8 = f7 + text::json_quoted(r.output);
    let f9 = f8 + ",\"time_ms\":"@;
    let f10 = f9 + text::decimal(r.time_ms as nat);
    let f11 = f10 + ",\"result_code\":\""@;
    let f12 = f11 + r.result_code.spec_name();
    let f13 = f12 + "\"}"@;
    let t13 = "\"}"@ + rest;
    let t12 = r.result_code.spec_name() + t13;
    let t11 = ",\"result_code\":\""@ + t12;
    let t10 = text::decimal(r.time_ms as nat) + t11;
    let t9 = ",\"time_ms\":"@ + t10;
    let t8 = text::json_quoted(r.output) + t9;
    let t7 = ",\"output\":"@ + t8;
    let t6 = text::decimal(r.total as nat) + t7;
    let t5 = ",\"total\":"@ + t6;
    let t4 = text::decimal(r.point as nat) + t5;
    let t3 = ",\"point\":"@ + t4;
    let t2 = text::json_quoted(r.id) + t3;
    assert(f13 + rest =~= f12 + t13);
    assert(f12 + t13 =~= f11 + t12);
    assert(f11 + t12 =~= f10 + t11);
    assert(f10 + t11 =~= f9 + t10);
    assert(f9 + t10 =~= f8 + t9);
    assert(f8 + t9 =~= f7 + t8);
    assert(f7 + t8 =~= f6 + t7);
    assert(f6 + t7 =~= f5 + t6);
    assert(f5 + t6 =~= f4 + t5);
    assert(f4 + t5 =~= f3 + t4);
    assert(f3 + t4 =~= f2 + t3);
    assert(f2 + t3 =~= f1 + t2);
    reveal_strlit(",\"result_code\":");
    reveal_strlit(",\"result_code\":\"");
    reveal_strlit("\"}");
    reveal_strlit("}");
    let name = r.result_code.spec_name();
    lemma_plain_name(r.result_code);
    assert(",\"result_code\":\""@ =~= ",\"result_code\":"@ + seq!['"']);
    assert("\"}"@ =~= seq!['"'] + "}"@);
    assert(t11 =~= report_end(r, rest));
}

/// The last piece of a report: its result code.
spec fn report_end(r: TestResultView, rest: Seq<char>) -> Seq<char> {
    ",\"result_code\":"@ + (text::json_quoted(r.result_code.spec_name()) + ("}"@ + rest))
}

/// A report and what stands behind it, piece by piece from the front.
spec fn report_front(r: TestResultView, rest: Seq<char>) -> Seq<char> {
    "{\"id\":"@ + (text::json_quoted(r.id) + (",\"point\":"@ + (text::decimal(r.point as nat) + (
    ",\"total\":"@ + (text::decimal(r.total as nat) + (",\"output\":"@ + (text::json_quoted(
        r.output,
    ) + (",\"time_ms\":"@ + (text::decimal(r.time_ms as nat) + report_end(r, rest)))))))))
    )
}

/// A report that is written as JSON and read again is the same report in every field:
/// identifier, points, output, time and result code.
pub proof fn law_report_reads_back(r: TestResultView, rest: Seq<char>)
    ensures
        read_report(worker::report_json(r) + rest) == Some((r, rest)),
{
    let s6 = report_end(r, rest);
    let s5 = ",\"time_ms\":"@ + (text::decimal(r.time_ms as nat) + s6);
    let s4 = ",\"output\":"@ + (text::json_quoted(r.output) + s5);
    let s3 = ",\"total\":"@ + (text::decimal(r.total as nat) + s4);
    let s2 = ",\"point\":"@ + (text::decimal(r.point as nat) + s3);
    lemma_report_pieces(r, rest);
    assert(s3[0] == ',' && s4[0] == ',' && s6[0] == ',') by {
        reveal_strlit(",\"total\":");
        reveal_strlit(",\"output\":");
        reveal_strlit(",\"result_code\":");
    }
    lemma_string_behind("{\"id\":"@, r.id, s2);
    lemma_number_behind(",\"point\":"@, r.point as nat, s3);
    lemma_number_behind(",\"total\":"@, r.total as nat, s4);
    lemma_string_behind(",\"output\":"@, r.output, s5);
    lemma_number_behind(",\"time_ms\":"@, r.time_ms as nat, s6);
    lemma_string_behind(",\"result_code\":"@, r.result_code.spec_name(), "}"@ + rest);
    lemma_behind("}"@, rest);
    law_code_names(r.result_code);
}

/// A monitor reads from its line what the queue meant: the position of a waiting
/// request, the report of a running test or of a test that has ended as the queue
/// gave it, or that there is no such request.
pub proof fn law_monitor_reads_line(response: ResponseView)
    requires
        response.status is Processing || response.status is Completed
            ==> response.test_result is Some,
    ensures
        read_line(server::monitor_line(response)) == Some(
            match response.status {
                RequestStatus::Queued(q) => LineView::Queue(q as nat),
                RequestStatus::Processing => LineView::Processing(response.test_result->0),
                RequestStatus::Completed => LineView::Completed(response.test_result->0),
                RequestStatus::NotFound => LineView::NotFound,
            },
        ),
{
    reveal_strlit("{\"status\": \"QUEUE\", \"position\": ");
    reveal_strlit("{\"status\": \"PROCESSING\", \"result\": ");
    reveal_strlit("{\"status\": \"COMPLETED\", \"result\": ");
    reveal_strlit("{\"status\": \"NOTFOUND\"}\n");
    reveal_strlit("}\n");
    let s = server::monitor_line(response);
    let r = response.test_result->0;
    assert("{\"status\": \"QUEUE\", \"position\": "@[12] == 'Q');
    assert("{\"status\": \"PROCESSING\", \"result\": "@[12] == 'P');
    assert("{\"status\": \"COMPLETED\", \"result\": "@[12] == 'C');
    assert("{\"status\": \"NOTFOUND\"}\n"@[12] == 'N');
    match response.status {
        RequestStatus::Queued(q) => {
            assert(s =~= "{\"status\": \"QUEUE\", \"position\": "@ + (text::decimal(q as nat)
                + "}\n"@));
            lemma_number_behind("{\"status\": \"QUEUE\", \"position\": "@, q as nat, "}\n"@);
        },
        RequestStatus::Processing => {
            assert(s =~= "{\"status\": \"PROCESSING\", \"result\": "@ + (worker::report_json(r)
                + "}\n"@));
            assert(s[12] == 'P');
            lemma_behind(
                "{\"status\": \"PROCESSING\", \"result\": "@,
                worker::report_json(r) + "}\n"@,
            );
            law_report_reads_back(r, "}\n"@);
        },
        RequestStatus::Completed => {
            assert(s =~= "{\"status\": \"COMPLETED\", \"result\": "@ + (worker::report_json(r)
                + "}\n"@));
            assert(s[12] == 'C');
            lemma_behind(
                "{\"status\": \"COMPLETED\", \"result\": "@,
                worker::report_json(r) + "}\n"@,
            );
            law_report_reads_back(r, "}\n"@);
        },
        RequestStatus::NotFound => {
            assert(s[12] == 'N');
        },
    }
}

/// A line for a monitor determines the status and the report that it carries: lines
/// of responses that differ in status, or in any field of their reports, differ.
pub proof fn law_lines_differ(a: ResponseView, b: ResponseView)
    requires
        a.status is Processing || a.status is Completed ==> a.test_result is Some,
        b.status is Processing || b.status is Completed ==> b.test_result is Some,
        server::monitor_line(a) == server::monitor_line(b),
    ensures
        a.status == b.status,
        a.status is Processing || a.status is Completed ==> a.test_result == b.test_result,
{
    law_monitor_reads_line(a);
    law_monitor_reads_line(b);
}

/// The end of a line that carries a report is the result code of the report, in
/// letters, and the status at its front is that of the response.
pub proof fn law_line_ends_with_result_code(response: ResponseView)
    requires
        response.status is Processing || response.status is Completed,
        response.test_result is Some,
    ensures
        ({
            let line = server::monitor_line(response);
            let end = match response.test_result->0.result_code {
                ResultCode::Processing => "\"result_code\":\"Processing\"}}\n"@,
                ResultCode::Completed => "\"result_code\":\"Completed\"}}\n"@,
                ResultCode::Canceled => "\"result_code\":\"Canceled\"}}\n"@,
                ResultCode::TimeLimitExceeded => "\"result_code\":\"TimeLimitExceeded\"}}\n"@,
                ResultCode::RuntimeError => "\"result_code\":\"RuntimeError\"}}\n"@,
                ResultCode::ServerError => "\"result_code\":\"ServerError\"}}\n"@,
            };
            let front = if response.status is Processing {
                "{\"status\": \"PROCESSING\", "@
            } else {
                "{\"status\": \"COMPLETED\", "@
            };
            &&& end.is_suffix_of(line)
            &&& front.is_prefix_of(line)
        }),
{
    reveal_strlit("\"result_code\":\"Processing\"}}\n");
    reveal_strlit("\"result_code\":\"Completed\"}}\n");
    reveal_strlit("\"result_code\":\"Canceled\"}}\n");
    reveal_strlit("\"result_code\":\"TimeLimitExceeded\"}}\n");
    reveal_strlit("\"result_code\":\"RuntimeError\"}}\n");
    reveal_strlit("\"result_code\":\"ServerError\"}}\n");
    reveal_strlit("{\"status\": \"PROCESSING\", ");
    reveal_strlit("{\"status\": \"COMPLETED\", ");
    reveal_strlit("{\"status\": \"PROCESSING\", \"result\": ");
    reveal_strlit("{\"status\": \"COMPLETED\", \"result\": ");
    reveal_strlit("Processing");
    reveal_strlit("Completed");
    reveal_strlit("Canceled");
    reveal_strlit("TimeLimitExceeded");
    reveal_strlit("RuntimeError");
    reveal_strlit("ServerError");
    reveal_strlit(",\"result_code\":\"");
    reveal_strlit("\"}");
    reveal_strlit("}\n");
    let line = server::monitor_line(response);
    let r = response.test_result->0;
    let tail = ",\"result_code\":\""@ + r.result_code.spec_name() + "\"}"@ + "}\n"@;
    let end = match r.result_code {
        ResultCode::Processing => "\"result_code\":\"Processing\"}}\n"@,
        ResultCode::Completed => "\"result_code\":\"Completed\"}}\n"@,
        ResultCode::Canceled => "\"result_code\":\"Canceled\"}}\n"@,
        ResultCode::TimeLimitExceeded => "\"result_code\":\"TimeLimitExceeded\"}}\n"@,
        ResultCode::RuntimeError => "\"result_code\":\"RuntimeError\"}}\n"@,
        ResultCode::ServerError => "\"result_code\":\"ServerError\"}}\n"@,
    };
    assert(tail =~= seq![','] + end);
    assert(line.subrange(line.len() - tail.len(), line.len() as int) =~= tail);
    assert(line.subrange(line.len() - end.len(), line.len() as int) =~= end);
}

/// Reads an answer to an upload.
pub open spec fn read_answer(s: Seq<char>) -> Option<AnswerView> {
    if let Some((size, rest)) = number_behind("{\"status\": \"Processing\", \"progress\": "@, s) {
        if rest == "}\n"@ {
            Some(AnswerView::Processing(size))
        } else {
            None
        }
    } else if let Some((limit, rest)) = number_behind(
        "{\"status\": \"FileSizeExceeded\", \"message\": \"Upload file size exceeds limit of "@,
        s,
    ) {
        if rest == " bytes\"}\n"@ {
            Some(AnswerView::FileSizeExceeded(limit))
        } else {
            None
        }
    } else if s == "{\"status\": \"FileUploadCompleted\"}\n"@ {
        Some(AnswerView::FileUploadCompleted)
    } else if let Some((id, rest)) = string_behind("{\"status\": \"OK\", \"uuid\": "@, s) {
        if rest == "}"@ {
            Some(AnswerView::Accepted(id))
        } else {
            None
        }
    } else if s == "{\"status\": \"TooManyRequests\", \"message\": \"Too many requests\"}"@ {
        Some(AnswerView::TooManyRequests)
    } else if let Some((message, rest)) = string_behind(
        "{\"status\": \"ServerError\", \"message\": "@,
        s,
    ) {
        if rest == "}"@ || rest == "}\n"@ {
            Some(AnswerView::ServerError(message))
        } else {
            None
        }
    } else {
        None
    }
}

/// The statuses of the answers are told apart by their letters.
proof fn lemma_statuses()
    ensures
        "{\"status\": \"Processing\", \"progress\": "@.len() > 16,
        "{\"status\": \"Processing\", \"progress\": "@[12] == 'P',
        "{\"status\": \"FileSizeExceeded\", \"message\": \"Upload file size exceeds limit of "@.len()
            > 16,
        "{\"status\": \"FileSizeExceeded\", \"message\": \"Upload file size exceeds limit of "@[12]
            == 'F',
        "{\"status\": \"FileSizeExceeded\", \"message\": \"Upload file size exceeds limit of "@[16]
            == 'S',
        "{\"status\": \"FileUploadCompleted\"}\n"@.len() > 16,
        "{\"status\": \"FileUploadCompleted\"}\n"@[12] == 'F',
        "{\"status\": \"FileUploadCompleted\"}\n"@[16] == 'U',
        "{\"status\": \"OK\", \"uuid\": "@.len() > 16,
        "{\"status\": \"OK\", \"uuid\": "@[12] == 'O',
        "{\"status\": \"TooManyRequests\", \"message\": \"Too many requests\"}"@.len() > 16,
        "{\"status\": \"TooManyRequests\", \"message\": \"Too many requests\"}"@[12] == 'T',
        "{\"status\": \"ServerError\", \"message\": "@.len() > 16,
        "{\"status\": \"ServerError\", \"message\": "@[12] == 'S',
{
    reveal_strlit("{\"status\": \"Processing\", \"progress\": ");
    reveal_strlit(
        "{\"status\": \"FileSizeExceeded\", \"message\": \"Upload file size exceeds limit of ",
    );
    reveal_strlit("{\"status\": \"FileUploadCompleted\"}\n");
    reveal_strlit("{\"status\": \"OK\", \"uuid\": ");
    reveal_strlit("{\"status\": \"TooManyRequests\", \"message\": \"Too many requests\"}");
    reveal_strlit("{\"status\": \"ServerError\", \"message\": ");
}

/// The message of an error reaches the client as it is, whatever it holds.
pub proof fn law_client_reads_error(message: Seq<char>)
    ensures
        read_answer(upload::error_frame(message)) == Some(AnswerView::ServerError(message)),
        read_answer(upload::error_frame(message) + "\n"@) == Some(AnswerView::ServerError(message)),
{
    lemma_statuses();
    reveal_strlit("}");
    reveal_strlit("\n");
    reveal_strlit("}\n");
    let front = "{\"status\": \"ServerError\", \"message\": "@;
    let s = upload::error_frame(message);
    assert(s =~= front + (text::json_quoted(message) + "}"@));
    assert(s + "\n"@ =~= front + (text::json_quoted(message) + "}\n"@));
    assert(s[12] == 'S');
    assert((s + "\n"@)[12] == 'S');
    lemma_string_behind(front, message, "}"@);
    lemma_string_behind(front, message, "}\n"@);
}

proof fn lemma_reads_size(size: nat)
    ensures
        read_answer(upload::progress_frame(size)) == Some(AnswerView::Processing(size)),
{
    reveal_strlit("}\n");
    let front = "{\"status\": \"Processing\", \"progress\": "@;
    let s = upload::progress_frame(size);
    assert(s =~= front + (text::decimal(size) + "}\n"@));
    lemma_number_behind(front, size, "}\n"@);
}

proof fn lemma_reads_limit(limit: nat)
    ensures
        read_answer(upload::too_large_frame(limit)) == Some(AnswerView::FileSizeExceeded(limit)),
{
    lemma_statuses();
    reveal_strlit(" bytes\"}\n");
    let front =
        "{\"status\": \"FileSizeExceeded\", \"message\": \"Upload file size exceeds limit of "@;
    let s = upload::too_large_frame(limit);
    assert(s =~= front + (text::decimal(limit) + " bytes\"}\n"@));
    assert(s[12] == 'F');
    lemma_number_behind(front, limit, " bytes\"}\n"@);
}

proof fn lemma_reads_complete()
    ensures
        read_answer(upload::complete_frame()) == Some(AnswerView::FileUploadCompleted),
{
    lemma_statuses();
    let s = upload::complete_frame();
    assert(s[12] == 'F');
    assert(s[16] == 'U');
}

/// A client reads from the answer to each event of the body what happened: the size
/// of the chunk, or that the limit is exceeded, with the limit; that the body is
/// complete; or why it could not be read.
pub proof fn law_client_reads_progress(u: UploadView, event: BodyEvent)
    ensures
        match event {
            BodyEvent::Data(bytes) => read_answer(u.told(event)) == Some(
                if u.content.len() + bytes@.len() <= u.limit {
                    AnswerView::Processing(bytes@.len())
                } else {
                    AnswerView::FileSizeExceeded(u.limit)
                },
            ),
            BodyEvent::NotData(what) => {
                &&& read_answer(u.told(event)) matches Some(AnswerView::ServerError(message))
                &&& message == "Failed to read body frame: "@ + what@
            },
            BodyEvent::Failed(why) => {
                &&& read_answer(u.told(event)) matches Some(AnswerView::ServerError(message))
                &&& message == "Failed to read body frame: "@ + why@
            },
            BodyEvent::End => read_answer(u.told(event)) == Some(AnswerView::FileUploadCompleted),
        },
{
    match event {
        BodyEvent::Data(bytes) => {
            if u.content.len() + bytes@.len() <= u.limit {
                lemma_reads_size(bytes@.len());
            } else {
                lemma_reads_limit(u.limit);
            }
        },
        BodyEvent::NotData(what) => {
            law_client_reads_error("Failed to read body frame: "@ + what@);
        },
        BodyEvent::Failed(why) => {
            law_client_reads_error("Failed to read body frame: "@ + why@);
        },
        BodyEvent::End => {
            lemma_reads_complete();
        },
    }
}

/// A client reads from the answer of the queue whether its request was taken in, and
/// then the identifier under which it can be monitored.
pub proof fn law_client_reads_reply(id: Seq<char>)
    requires
        server::is_uuid(id),
    ensures
        read_answer(upload::accepted_frame(id)) == Some(AnswerView::Accepted(id)),
        read_answer(upload::refused_frame()) == Some(AnswerView::TooManyRequests),
{
    lemma_statuses();
    reveal_strlit("{\"status\": \"OK\", \"uuid\": ");
    reveal_strlit("{\"status\": \"OK\", \"uuid\": \"");
    reveal_strlit("\"}");
    reveal_strlit("}");
    let front = "{\"status\": \"OK\", \"uuid\": "@;
    let s = upload::accepted_frame(id);
    assert forall|i: int| 0 <= i < id.len() implies {
        &&& 0x20 <= #[trigger] id[i] as int
        &&& id[i] != '"'
        &&& id[i] != '\\'
    } by {}
    text::law_plain_json(id);
    assert("{\"status\": \"OK\", \"uuid\": \""@ =~= front + seq!['"']);
    assert("\"}"@ =~= seq!['"'] + "}"@);
    assert(s =~= front + (text::json_quoted(id) + "}"@));
    assert(s[12] == 'O');
    lemma_string_behind(front, id, "}"@);
    assert(upload::refused_frame()[12] == 'T');
}

/// The message on a file that could not be saved names the file and the reason, and
/// tells whether it could not be created or not be written.
pub proof fn law_file_error_messages(path: Seq<char>, error: FileError)
    ensures
        ({
            let message = upload::file_error_message(path, error);
            match error {
                FileError::Create(why) => {
                    &&& ("Failed to create temporary file "@ + path).is_prefix_of(message)
                    &&& why@.is_suffix_of(message)
                },
                FileError::Write(why) => {
                    &&& ("Failed to write to temporary file "@ + path).is_prefix_of(message)
                    &&& why@.is_suffix_of(message)
                },
            }
        }),
{
    let message = upload::file_error_message(path, error);
    match error {
        FileError::Create(why) => {
            let front = "Failed to create temporary file "@ + path;
            assert(message =~= front + (": "@ + why@));
            assert(message.subrange(message.len() - why@.len(), message.len() as int) =~= why@);
        },
        FileError::Write(why) => {
            let front = "Failed to write to temporary file "@ + path;
            assert(message =~= front + (": "@ + why@));
            assert(message.subrange(message.len() - why@.len(), message.len() as int) =~= why@);
        },
    }
}

} // verus!
